//! Shared helpers: CPU identification from /proc/cpuinfo, CPU lists, per-CPU /proc/stat
//! lines, series names, ordering of metric names across runs and value ranges.
use crate::text::{
    chars_of, decimal, line_ranges, lines, parse_unsigned, parse_unsigned_range, pieces, push_decimal,
    push_str, range_eq, ranges_within, split, split_ranges, str_eq, string_of, trim, trim_bounds,
    find_char, index_of_char, words, word_ranges, range_starts_with, str_starts_with,
};
use crate::data::common::ordering::{
    chains_within, is_blocked_set, is_edge, is_node_order, order_nodes, waits_within,
};
use vstd::prelude::*;

verus! {

// ------------------------------------------------------------------------------------------
// CPU information
// ------------------------------------------------------------------------------------------

/// The fields of /proc/cpuinfo (of the first processor) that identify the CPU.
#[derive(Clone, Debug)]
pub struct CpuInfo {
    pub part: Option<String>,
    pub vendor_id: Option<String>,
    pub model_name: Option<String>,
    pub family: Option<u32>,
    pub model: Option<u32>,
    pub stepping: Option<u32>,
}

/// The mathematical model of a `CpuInfo`: its strings taken as character sequences.
pub struct CpuInfoView {
    pub part: Option<Seq<char>>,
    pub vendor_id: Option<Seq<char>>,
    pub model_name: Option<Seq<char>>,
    pub family: Option<u32>,
    pub model: Option<u32>,
    pub stepping: Option<u32>,
}

pub open spec fn opt_view(o: Option<String>) -> Option<Seq<char>> {
    match o {
        Some(s) => Some(s@),
        None => None,
    }
}

impl View for CpuInfo {
    type V = CpuInfoView;

    open spec fn view(&self) -> CpuInfoView {
        CpuInfoView {
            part: opt_view(self.part),
            vendor_id: opt_view(self.vendor_id),
            model_name: opt_view(self.model_name),
            family: self.family,
            model: self.model,
            stepping: self.stepping,
        }
    }
}

pub open spec fn cpuinfo_empty() -> CpuInfoView {
    CpuInfoView {
        part: None,
        vendor_id: None,
        model_name: None,
        family: None,
        model: None,
        stepping: None,
    }
}

/// `u32::from_str(..).ok()`.
pub open spec fn parse_u32(s: Seq<char>) -> Option<u32> {
    match parse_unsigned(s, 0xFFFF_FFFF) {
        Some(n) => Some(n as u32),
        None => None,
    }
}

/// The effect of one `key: value` line of /proc/cpuinfo. The line is split at every
/// colon; a line with no colon is ignored, and the value is the trimmed text between the
/// first and the second colon.
pub open spec fn cpuinfo_apply(info: CpuInfoView, line: Seq<char>) -> CpuInfoView {
    let parts = split(line, ':');
    if parts.len() < 2 {
        info
    } else {
        let key = trim(parts[0]);
        let value = trim(parts[1]);
        if key == "CPU part"@ {
            CpuInfoView { part: Some(value), ..info }
        } else if key == "vendor_id"@ {
            CpuInfoView { vendor_id: Some(value), ..info }
        } else if key == "model name"@ {
            CpuInfoView { model_name: Some(value), ..info }
        } else if key == "cpu family"@ {
            CpuInfoView { family: parse_u32(value), ..info }
        } else if key == "model"@ {
            CpuInfoView { model: parse_u32(value), ..info }
        } else if key == "stepping"@ {
            CpuInfoView { stepping: parse_u32(value), ..info }
        } else {
            info
        }
    }
}

pub open spec fn cpuinfo_fold(ls: Seq<Seq<char>>) -> CpuInfoView
    decreases ls.len(),
{
    if ls.len() == 0 {
        cpuinfo_empty()
    } else {
        cpuinfo_apply(cpuinfo_fold(ls.drop_last()), ls.last())
    }
}

/// The number of lines before the first empty one.
pub open spec fn lines_before_empty(ls: Seq<Seq<char>>) -> nat
    decreases ls.len(),
{
    if ls.len() == 0 {
        0
    } else {
        let n = lines_before_empty(ls.drop_last());
        if n < ls.len() - 1 {
            n
        } else if ls.last().len() == 0 {
            n
        } else {
            ls.len()
        }
    }
}

/// The CPU information in the text of /proc/cpuinfo: the lines of the first processor
/// (those before the first empty line) applied in order.
pub open spec fn cpuinfo_of(text: Seq<char>) -> CpuInfoView {
    let ls = lines(text);
    cpuinfo_fold(ls.take(lines_before_empty(ls) as int))
}

proof fn lemma_lines_before_empty(ls: Seq<Seq<char>>, k: int)
    requires
        0 <= k <= ls.len(),
        forall|j: int| 0 <= j < k ==> (#[trigger] ls[j]).len() > 0,
        k == ls.len() || ls[k].len() == 0,
    ensures
        lines_before_empty(ls) == k,
    decreases ls.len(),
{
    if ls.len() > 0 {
        let t = ls.drop_last();
        if k == ls.len() {
            assert forall|j: int| 0 <= j < k - 1 implies (#[trigger] t[j]).len() > 0 by {
                assert(t[j] == ls[j]);
            }
            lemma_lines_before_empty(t, k - 1);
        } else {
            assert forall|j: int| 0 <= j < k implies (#[trigger] t[j]).len() > 0 by {
                assert(t[j] == ls[j]);
            }
            if k < t.len() {
                assert(t[k] == ls[k]);
            }
            lemma_lines_before_empty(t, k);
        }
    }
}

/// Whether an optional string holds exactly the characters of `lit`.
pub fn opt_string_is(o: &Option<String>, lit: &str) -> (r: bool)
    ensures
        r == (opt_view(*o) == Some(lit@)),
{
    match o {
        Some(s) => str_eq(s.as_str(), lit),
        None => false,
    }
}

fn parse_u32_range(v: &Vec<char>, lo: usize, hi: usize) -> (r: Option<u32>)
    requires
        lo <= hi <= v.len(),
    ensures
        r == parse_u32(v@.subrange(lo as int, hi as int)),
{
    match parse_unsigned_range(v, lo, hi, 0xFFFF_FFFF) {
        Some(n) => Some(n as u32),
        None => None,
    }
}

impl CpuInfo {
    /// Reads the CPU information from the text of /proc/cpuinfo.
    pub fn from_cpuinfo_text(text: &str) -> (r: CpuInfo)
        ensures
            r@ == cpuinfo_of(text@),
    {
        let v = chars_of(text);
        let ls = line_ranges(&v, 0, v.len());
        let ghost lsv = lines(text@);
        assert(v@.subrange(0, v@.len() as int) =~= v@);
        let mut info = CpuInfo {
            part: None,
            vendor_id: None,
            model_name: None,
            family: None,
            model: None,
            stepping: None,
        };
        let lit_part = chars_of("CPU part");
        let lit_vendor = chars_of("vendor_id");
        let lit_model_name = chars_of("model name");
        let lit_family = chars_of("cpu family");
        let lit_model = chars_of("model");
        let lit_stepping = chars_of("stepping");
        let mut i: usize = 0;
        let mut stop = false;
        assert(lsv.take(0) =~= Seq::<Seq<char>>::empty());
        while i < ls.len() && !stop
            invariant
                stop ==> i < lsv.len() && lsv[i as int].len() == 0,
                lsv == lines(text@),
                lsv == pieces(v@, ls@),
                ranges_within(ls@, 0, v@.len() as int),
                0 <= i <= ls@.len(),
                forall|j: int| 0 <= j < i ==> (#[trigger] lsv[j]).len() > 0,
                info@ == cpuinfo_fold(lsv.take(i as int)),
                lit_part@ == "CPU part"@,
                lit_vendor@ == "vendor_id"@,
                lit_model_name@ == "model name"@,
                lit_family@ == "cpu family"@,
                lit_model@ == "model"@,
                lit_stepping@ == "stepping"@,
            decreases ls.len() - i + (if stop {
                0int
            } else {
                1int
            }),
        {
            let (a, b) = ls[i];
            assert(ls@[i as int] == (a, b));
            let ghost line = v@.subrange(a as int, b as int);
            assert(lsv[i as int] == line);
            if a == b {
                stop = true;
                continue;
            }
            let parts = split_ranges(&v, a, b, ':');
            let ghost ps = split(line, ':');
            assert(lsv.take(i + 1).drop_last() =~= lsv.take(i as int));
            assert(lsv.take(i + 1).last() == line);
            if parts.len() >= 2 {
                let (k0, k1) = parts[0];
                let (v0, v1) = parts[1];
                assert(parts@[0] == (k0, k1) && parts@[1] == (v0, v1));
                assert(ps[0] == v@.subrange(k0 as int, k1 as int));
                assert(ps[1] == v@.subrange(v0 as int, v1 as int));
                let (ka, kb) = trim_bounds(&v, k0, k1);
                let (va, vb) = trim_bounds(&v, v0, v1);
                if range_eq(&v, ka, kb, &lit_part) {
                    info.part = Some(string_of(&v, va, vb));
                } else if range_eq(&v, ka, kb, &lit_vendor) {
                    info.vendor_id = Some(string_of(&v, va, vb));
                } else if range_eq(&v, ka, kb, &lit_model_name) {
                    info.model_name = Some(string_of(&v, va, vb));
                } else if range_eq(&v, ka, kb, &lit_family) {
                    info.family = parse_u32_range(&v, va, vb);
                } else if range_eq(&v, ka, kb, &lit_model) {
                    info.model = parse_u32_range(&v, va, vb);
                } else if range_eq(&v, ka, kb, &lit_stepping) {
                    info.stepping = parse_u32_range(&v, va, vb);
                }
            }
            i = i + 1;
        }
        proof {
            lemma_lines_before_empty(lsv, i as int);
        }
        info
    }

    /// Whether this is an ARM CPU: ARM64 kernels print the "CPU part" field for every
    /// core, while x86 kernels have no such field.
    pub fn is_arm(&self) -> (r: bool)
        ensures
            r == (self.part is Some),
    {
        self.part.is_some()
    }

    pub fn is_graviton_5(&self) -> (r: bool)
        ensures
            r == (self@.part == Some("0xd84"@)),
    {
        opt_string_is(&self.part, "0xd84")
    }

    pub fn is_intel(&self) -> (r: bool)
        ensures
            r == (self@.vendor_id == Some("GenuineIntel"@)),
    {
        opt_string_is(&self.vendor_id, "GenuineIntel")
    }

    /// Skylake-SP: family 6, model 0x55, stepping 0 to 4.
    pub fn is_intel_skylake(&self) -> (r: bool)
        ensures
            r == (self.family == Some(6u32) && self.model == Some(0x55u32) && (self.stepping matches Some(
                s,
            ) && s <= 4)),
    {
        self.family == Some(6) && self.model == Some(0x55) && match self.stepping {
            Some(s) => s <= 4,
            None => false,
        }
    }

    /// Cascade Lake: family 6, model 0x55, stepping 5 or more.
    pub fn is_intel_cascade_lake(&self) -> (r: bool)
        ensures
            r == (self.family == Some(6u32) && self.model == Some(0x55u32) && (self.stepping matches Some(
                s,
            ) && s >= 5)),
    {
        self.family == Some(6) && self.model == Some(0x55) && match self.stepping {
            Some(s) => s >= 5,
            None => false,
        }
    }

    /// Ice Lake-SP/-D: family 6, model 0x6A or 0x6C.
    pub fn is_intel_icelake(&self) -> (r: bool)
        ensures
            r == (self.family == Some(6u32) && (self.model == Some(0x6Au32) || self.model == Some(
                0x6Cu32,
            ))),
    {
        self.family == Some(6) && (self.model == Some(0x6A) || self.model == Some(0x6C))
    }

    /// Sapphire Rapids: family 6, model 0x8F.
    pub fn is_intel_sapphire_rapids(&self) -> (r: bool)
        ensures
            r == (self.family == Some(6u32) && self.model == Some(0x8Fu32)),
    {
        self.family == Some(6) && self.model == Some(0x8F)
    }

    /// Emerald Rapids: family 6, model 0xCF.
    pub fn is_intel_emerald_rapids(&self) -> (r: bool)
        ensures
            r == (self.family == Some(6u32) && self.model == Some(0xCFu32)),
    {
        self.family == Some(6) && self.model == Some(0xCF)
    }

    /// Granite Rapids: family 6, model 0xAD or 0xAE.
    pub fn is_intel_granite_rapids(&self) -> (r: bool)
        ensures
            r == (self.family == Some(6u32) && (self.model == Some(0xADu32) || self.model == Some(
                0xAEu32,
            ))),
    {
        self.family == Some(6) && (self.model == Some(0xAD) || self.model == Some(0xAE))
    }

    pub fn is_amd(&self) -> (r: bool)
        ensures
            r == (self@.vendor_id == Some("AuthenticAMD"@)),
    {
        opt_string_is(&self.vendor_id, "AuthenticAMD")
    }

    /// Genoa (Zen4): family 0x19, model 0x10-0x1F or 0x60-0xAF.
    pub fn is_amd_genoa(&self) -> (r: bool)
        ensures
            r == (self.family == Some(0x19u32) && (self.model matches Some(m) && ((0x10 <= m
                <= 0x1F) || (0x60 <= m <= 0xAF)))),
    {
        self.family == Some(0x19) && match self.model {
            Some(m) => (0x10 <= m && m <= 0x1F) || (0x60 <= m && m <= 0xAF),
            None => false,
        }
    }

    /// Milan (Zen3): family 0x19, model 0x00-0x0F or 0x20-0x5F.
    pub fn is_amd_milan(&self) -> (r: bool)
        ensures
            r == (self.family == Some(0x19u32) && (self.model matches Some(m) && (m <= 0x0F || (0x20
                <= m <= 0x5F)))),
    {
        self.family == Some(0x19) && match self.model {
            Some(m) => m <= 0x0F || (0x20 <= m && m <= 0x5F),
            None => false,
        }
    }

    /// Turin (Zen5): family 0x1A.
    pub fn is_amd_turin(&self) -> (r: bool)
        ensures
            r == (self.family == Some(0x1Au32)),
    {
        self.family == Some(0x1A)
    }

    /// Naples (Zen1): family 0x17, model 0x00-0x2F or 0x50-0x5F.
    pub fn is_amd_naples(&self) -> (r: bool)
        ensures
            r == (self.family == Some(0x17u32) && (self.model matches Some(m) && (m <= 0x2F || (0x50
                <= m <= 0x5F)))),
    {
        self.family == Some(0x17) && match self.model {
            Some(m) => m <= 0x2F || (0x50 <= m && m <= 0x5F),
            None => false,
        }
    }

    /// Rome (Zen2): any family-0x17 model outside the Naples ranges.
    pub fn is_amd_rome(&self) -> (r: bool)
        ensures
            r == (self.family == Some(0x17u32) && (self.model matches Some(m) && !(m <= 0x2F || (0x50
                <= m <= 0x5F)))),
    {
        self.family == Some(0x17) && !self.is_amd_naples() && self.model.is_some()
    }
}

// ------------------------------------------------------------------------------------------
// Series names and value ranges
// ------------------------------------------------------------------------------------------

/// The name of the series of one CPU: "CPU" and its number.
pub fn get_cpu_series_name(cpu: usize) -> (r: String)
    ensures
        r@ == "CPU"@ + decimal(cpu as nat),
{
    let mut s = String::new();
    push_str(&mut s, "CPU");
    push_decimal(&mut s, cpu as u64);
    s
}

pub fn get_aggregate_series_name() -> (r: String)
    ensures
        r@ == "Aggregate"@,
{
    let mut s = String::new();
    push_str(&mut s, "Aggregate");
    s
}

pub open spec fn min_of_mins(rs: Seq<(u64, u64)>) -> u64
    decreases rs.len(),
{
    if rs.len() <= 1 {
        rs[0].0
    } else {
        let m = min_of_mins(rs.drop_last());
        if rs.last().0 < m {
            rs.last().0
        } else {
            m
        }
    }
}

pub open spec fn max_of_maxes(rs: Seq<(u64, u64)>) -> u64
    decreases rs.len(),
{
    if rs.len() <= 1 {
        rs[0].1
    } else {
        let m = max_of_maxes(rs.drop_last());
        if rs.last().1 > m {
            rs.last().1
        } else {
            m
        }
    }
}

/// Combines value ranges into one: the minimum of all minimums and the maximum of all
/// maximums, or (0, 0) for no range.
pub fn combine_value_ranges(value_ranges: Vec<(u64, u64)>) -> (r: (u64, u64))
    ensures
        value_ranges@.len() == 0 ==> r == (0u64, 0u64),
        value_ranges@.len() > 0 ==> r == (min_of_mins(value_ranges@), max_of_maxes(
            value_ranges@,
        )),
{
    if value_ranges.len() == 0 {
        return (0, 0);
    }
    let mut min = value_ranges[0].0;
    let mut max = value_ranges[0].1;
    let mut i: usize = 1;
    assert(value_ranges@.take(1).drop_last() =~= Seq::<(u64, u64)>::empty());
    while i < value_ranges.len()
        invariant
            1 <= i <= value_ranges@.len(),
            min == min_of_mins(value_ranges@.take(i as int)),
            max == max_of_maxes(value_ranges@.take(i as int)),
        decreases value_ranges.len() - i,
    {
        assert(value_ranges@.take(i + 1).drop_last() =~= value_ranges@.take(i as int));
        let (lo, hi) = value_ranges[i];
        if lo < min {
            min = lo;
        }
        if hi > max {
            max = hi;
        }
        i = i + 1;
    }
    assert(value_ranges@.take(i as int) =~= value_ranges@);
    (min, max)
}

/// The minimum of the combined range is no greater than any range's minimum, and is one of
/// them; likewise the maximum.
pub proof fn lemma_combined_range_bounds(rs: Seq<(u64, u64)>)
    requires
        rs.len() > 0,
    ensures
        forall|i: int| 0 <= i < rs.len() ==> min_of_mins(rs) <= (#[trigger] rs[i]).0 && rs[i].1
            <= max_of_maxes(rs),
        exists|i: int| 0 <= i < rs.len() && min_of_mins(rs) == (#[trigger] rs[i]).0,
        exists|i: int| 0 <= i < rs.len() && max_of_maxes(rs) == (#[trigger] rs[i]).1,
    decreases rs.len(),
{
    if rs.len() == 1 {
        assert(min_of_mins(rs) == rs[0].0);
        assert(max_of_maxes(rs) == rs[0].1);
    } else {
        let t = rs.drop_last();
        lemma_combined_range_bounds(t);
        assert forall|i: int| 0 <= i < rs.len() implies min_of_mins(rs) <= (
        #[trigger] rs[i]).0 && rs[i].1 <= max_of_maxes(rs) by {
            if i < t.len() {
                assert(t[i] == rs[i]);
            }
        }
        let a = choose|i: int| 0 <= i < t.len() && min_of_mins(t) == (#[trigger] t[i]).0;
        let b = choose|i: int| 0 <= i < t.len() && max_of_maxes(t) == (#[trigger] t[i]).1;
        assert(t[a] == rs[a] && t[b] == rs[b]);
        if rs.last().0 < min_of_mins(t) {
            assert(min_of_mins(rs) == rs[rs.len() - 1].0);
        } else {
            assert(min_of_mins(rs) == rs[a].0);
        }
        if rs.last().1 > max_of_maxes(t) {
            assert(max_of_maxes(rs) == rs[rs.len() - 1].1);
        } else {
            assert(max_of_maxes(rs) == rs[b].1);
        }
    }
}

// ------------------------------------------------------------------------------------------
// CPU lists
// ------------------------------------------------------------------------------------------

/// Why a CPU list was rejected.
#[derive(Clone, Copy, Debug, PartialEq, Eq, Structural)]
pub enum CpuListError {
    /// An entry is not a CPU number.
    InvalidCpu,
    /// A range is reversed or spans more than 10000 CPUs.
    InvalidRange,
}

/// A CPU number: `usize::from_str` of the trimmed text.
pub open spec fn parse_cpu_id(s: Seq<char>) -> Option<nat> {
    parse_unsigned(trim(s), usize::MAX as nat)
}

/// One comma-separated entry of a CPU list: `Ok(None)` for an empty entry, or the inclusive
/// range of CPUs it names (a single CPU `n` names `n..=n`). A range splits at its first `-`.
pub open spec fn cpu_list_part(part: Seq<char>) -> Result<Option<(nat, nat)>, CpuListError> {
    let p = trim(part);
    if p.len() == 0 {
        Ok(None)
    } else {
        let k = index_of_char(p, '-');
        if k < 0 {
            match parse_cpu_id(p) {
                Some(n) => Ok(Some((n, n))),
                None => Err(CpuListError::InvalidCpu),
            }
        } else {
            match parse_cpu_id(p.subrange(0, k)) {
                None => Err(CpuListError::InvalidCpu),
                Some(lo) => match parse_cpu_id(p.subrange(k + 1, p.len() as int)) {
                    None => Err(CpuListError::InvalidCpu),
                    Some(hi) => if hi < lo || hi - lo > 10000 {
                        Err(CpuListError::InvalidRange)
                    } else {
                        Ok(Some((lo, hi)))
                    },
                },
            }
        }
    }
}

pub open spec fn cpu_range_set(r: Option<(nat, nat)>) -> Set<nat> {
    match r {
        Some((lo, hi)) => Set::new(|x: nat| lo <= x <= hi),
        None => Set::empty(),
    }
}

/// Adds a set to the result of a list, keeping its error.
pub open spec fn with_set(s: Set<nat>, r: Result<Set<nat>, CpuListError>) -> Result<
    Set<nat>,
    CpuListError,
> {
    match r {
        Ok(t) => Ok(s.union(t)),
        Err(e) => Err(e),
    }
}

/// The CPUs that the entries name, or the error of the first rejected entry.
pub open spec fn cpu_list_ids(parts: Seq<Seq<char>>) -> Result<Set<nat>, CpuListError>
    decreases parts.len(),
{
    if parts.len() == 0 {
        Ok(Set::empty())
    } else {
        match cpu_list_part(parts[0]) {
            Err(e) => Err(e),
            Ok(r) => with_set(cpu_range_set(r), cpu_list_ids(parts.drop_first())),
        }
    }
}

/// The CPUs that a CPU list such as "0-1,3-5,7" names.
pub open spec fn cpu_list(s: Seq<char>) -> Result<Set<nat>, CpuListError> {
    let t = trim(s);
    if t.len() == 0 {
        Ok(Set::empty())
    } else {
        cpu_list_ids(split(t, ','))
    }
}

pub open spec fn strictly_increasing(s: Seq<usize>) -> bool {
    forall|i: int, j: int| 0 <= i < j < s.len() ==> s[i] < s[j]
}

pub open spec fn usize_set(s: Seq<usize>) -> Set<nat> {
    Set::new(|x: nat| exists|i: int| 0 <= i < s.len() && s[i] as nat == x)
}

/// Adds the CPUs `lo..=hi` to an ascending list of distinct CPUs.
fn merge_range(ids: &Vec<usize>, lo: usize, hi: usize) -> (r: Vec<usize>)
    requires
        strictly_increasing(ids@),
        lo <= hi,
    ensures
        strictly_increasing(r@),
        usize_set(r@) == usize_set(ids@).union(Set::new(|x: nat| lo <= x <= hi)),
{
    let mut out: Vec<usize> = Vec::new();
    let mut i: usize = 0;
    while i < ids.len() && ids[i] < lo
        invariant
            strictly_increasing(ids@),
            0 <= i <= ids@.len(),
            out@ == ids@.subrange(0, i as int),
            forall|k: int| 0 <= k < i ==> #[trigger] ids@[k] < lo,
        decreases ids.len() - i,
    {
        out.push(ids[i]);
        i = i + 1;
        assert(out@ =~= ids@.subrange(0, i as int));
    }
    let i0 = i;
    assert(forall|k: int| 0 <= k < i0 ==> out@[k] == ids@[k]);
    let mut x = lo;
    while x < hi
        invariant
            lo <= x <= hi,
            0 <= i0 <= ids@.len(),
            out@.len() == i0 + (x - lo),
            forall|k: int| 0 <= k < i0 ==> #[trigger] out@[k] == ids@[k],
            forall|k: int| i0 <= k < out@.len() ==> #[trigger] out@[k] == lo + (k - i0),
        decreases hi - x,
    {
        out.push(x);
        x = x + 1;
    }
    out.push(hi);
    let mid = out.len();
    while i < ids.len() && ids[i] <= hi
        invariant
            strictly_increasing(ids@),
            i0 <= i <= ids@.len(),
            i0 == ids@.len() || ids@[i0 as int] >= lo,
            forall|k: int| i0 <= k < i ==> lo <= #[trigger] ids@[k] <= hi,
        decreases ids.len() - i,
    {
        assert(ids@[i0 as int] <= ids@[i as int]);
        i = i + 1;
    }
    let i1 = i;
    while i < ids.len()
        invariant
            i0 <= i1 <= i <= ids@.len(),
            lo <= hi,
            mid == i0 + (hi - lo) + 1,
            out@.len() == mid + (i - i1),
            forall|k: int| 0 <= k < i0 ==> #[trigger] out@[k] == ids@[k],
            forall|k: int| i0 <= k < mid ==> #[trigger] out@[k] == lo + (k - i0),
            forall|k: int| mid <= k < out@.len() ==> #[trigger] out@[k] == ids@[i1 + (k - mid)],
        decreases ids.len() - i,
    {
        out.push(ids[i]);
        i = i + 1;
    }
    proof {
        let o = out@;
        assert(i1 == ids@.len() || ids@[i1 as int] > hi);
        assert forall|a: int, b: int| 0 <= a < b < o.len() implies o[a] < o[b] by {
            if b < i0 {
            } else if a < i0 && b < mid {
                assert(ids@[a] < lo);
            } else if a < i0 {
                assert(ids@[a] < ids@[i1 + (b - mid)]);
            } else if b < mid {
            } else if a < mid {
                assert(ids@[i1 as int] <= ids@[i1 + (b - mid)]);
            } else {
            }
        }
        let lhs = usize_set(o);
        let rhs = usize_set(ids@).union(Set::new(|x: nat| lo <= x <= hi));
        assert forall|y: nat| lhs.contains(y) implies rhs.contains(y) by {
            let k = choose|k: int| 0 <= k < o.len() && o[k] as nat == y;
            if k < i0 {
                assert(ids@[k] as nat == y);
            } else if k < mid {
            } else {
                assert(ids@[i1 + (k - mid)] as nat == y);
            }
        }
        assert forall|y: nat| rhs.contains(y) implies lhs.contains(y) by {
            if lo <= y <= hi {
                let k = i0 + (y - lo);
                assert(o[k] as nat == y);
            } else {
                let k = choose|k: int| 0 <= k < ids@.len() && ids@[k] as nat == y;
                if k < i0 {
                    assert(o[k] as nat == y);
                } else if k < i1 {
                    assert(lo <= ids@[k] <= hi);
                } else {
                    assert(o[mid + (k - i1)] as nat == y);
                }
            }
        }
        assert(lhs =~= rhs);
    }
    out
}

fn parse_cpu_id_range(v: &Vec<char>, lo: usize, hi: usize) -> (r: Option<usize>)
    requires
        lo <= hi <= v.len(),
    ensures
        match r {
            Some(n) => parse_cpu_id(v@.subrange(lo as int, hi as int)) == Some(n as nat),
            None => parse_cpu_id(v@.subrange(lo as int, hi as int)) is None,
        },
{
    let (a, b) = trim_bounds(v, lo, hi);
    match parse_unsigned_range(v, a, b, usize::MAX as u64) {
        Some(n) => Some(n as usize),
        None => None,
    }
}

/// One entry `v[a..b]` of a CPU list (see `cpu_list_part`).
fn parse_cpu_list_part(v: &Vec<char>, a: usize, b: usize) -> (r: Result<
    Option<(usize, usize)>,
    CpuListError,
>)
    requires
        a <= b <= v.len(),
    ensures
        match r {
            Ok(Some((lo, hi))) => lo <= hi && cpu_list_part(v@.subrange(a as int, b as int)) == Ok::<
                Option<(nat, nat)>,
                CpuListError,
            >(Some((lo as nat, hi as nat))),
            Ok(None) => cpu_list_part(v@.subrange(a as int, b as int)) == Ok::<
                Option<(nat, nat)>,
                CpuListError,
            >(None),
            Err(e) => cpu_list_part(v@.subrange(a as int, b as int)) == Err::<
                Option<(nat, nat)>,
                CpuListError,
            >(e),
        },
{
    let (pa, pb) = trim_bounds(v, a, b);
    let ghost p = v@.subrange(pa as int, pb as int);
    if pa == pb {
        return Ok(None);
    }
    match find_char(v, pa, pb, '-') {
        None => match parse_cpu_id_range(v, pa, pb) {
            Some(n) => Ok(Some((n, n))),
            None => Err(CpuListError::InvalidCpu),
        },
        Some(k) => {
            assert(p.subrange(0, k - pa) =~= v@.subrange(pa as int, k as int));
            assert(p.subrange(k - pa + 1, p.len() as int) =~= v@.subrange(k + 1, pb as int));
            let low = match parse_cpu_id_range(v, pa, k) {
                Some(n) => n,
                None => {
                    return Err(CpuListError::InvalidCpu);
                },
            };
            let high = match parse_cpu_id_range(v, k + 1, pb) {
                Some(n) => n,
                None => {
                    return Err(CpuListError::InvalidCpu);
                },
            };
            if high < low || high - low > 10000 {
                return Err(CpuListError::InvalidRange);
            }
            Ok(Some((low, high)))
        },
    }
}

/// Parses a CPU list, a comma-separated list of single CPUs and inclusive ranges such as
/// "0-1,3-5,7", into ascending, distinct CPU numbers. This is the format of the CPU masks
/// under /sys/devices/system/cpu and of the --pmu-cpus option.
pub fn parse_cpu_list(cpu_list: &str) -> (r: Result<Vec<usize>, CpuListError>)
    ensures
        match r {
            Ok(ids) => strictly_increasing(ids@) && crate::data::common::utils::cpu_list(cpu_list@)
                == Ok::<Set<nat>, CpuListError>(usize_set(ids@)),
            Err(e) => crate::data::common::utils::cpu_list(cpu_list@) == Err::<Set<nat>, CpuListError>(e),
        },
{
    let v = chars_of(cpu_list);
    assert(v@.subrange(0, v@.len() as int) =~= v@);
    let (tl, th) = trim_bounds(&v, 0, v.len());
    let mut ids: Vec<usize> = Vec::new();
    if tl == th {
        assert(usize_set(ids@) =~= Set::<nat>::empty());
        return Ok(ids);
    }
    let parts = split_ranges(&v, tl, th, ',');
    let ghost ps = split(v@.subrange(tl as int, th as int), ',');
    let mut i: usize = 0;
    assert(crate::data::common::utils::cpu_list(cpu_list@) == cpu_list_ids(ps));
    assert(usize_set(ids@) =~= Set::<nat>::empty());
    assert(ps.skip(0) =~= ps);
    assert(with_set(Set::<nat>::empty(), cpu_list_ids(ps)) =~= cpu_list_ids(ps)) by {
        match cpu_list_ids(ps) {
            Ok(t) => assert(Set::<nat>::empty().union(t) =~= t),
            Err(_) => {},
        }
    }
    while i < parts.len()
        invariant
            ps == pieces(v@, parts@),
            crate::data::common::utils::cpu_list(cpu_list@) == cpu_list_ids(ps),
            ranges_within(parts@, tl as int, th as int),
            th <= v@.len(),
            0 <= i <= parts@.len(),
            strictly_increasing(ids@),
            cpu_list_ids(ps) == with_set(usize_set(ids@), cpu_list_ids(ps.skip(i as int))),
        decreases parts.len() - i,
    {
        let (a, b) = parts[i];
        assert(parts@[i as int] == (a, b));
        let ghost part = v@.subrange(a as int, b as int);
        assert(ps[i as int] == part);
        assert(ps.skip(i as int)[0] == part);
        assert(ps.skip(i as int).drop_first() =~= ps.skip(i + 1));
        let range = match parse_cpu_list_part(&v, a, b) {
            Ok(r) => r,
            Err(e) => {
                return Err(e);
            },
        };
        let ghost old_set = usize_set(ids@);
        match range {
            Some((low, high)) => {
                ids = merge_range(&ids, low, high);
            },
            None => {},
        }
        proof {
            let pr = match range {
                Some((low, high)) => Some((low as nat, high as nat)),
                None => None,
            };
            assert(cpu_list_part(part) == Ok::<Option<(nat, nat)>, CpuListError>(pr));
            assert(usize_set(ids@) =~= old_set.union(cpu_range_set(pr)));
            match cpu_list_ids(ps.skip(i + 1)) {
                Ok(t) => {
                    assert(old_set.union(cpu_range_set(pr).union(t)) =~= old_set.union(
                        cpu_range_set(pr),
                    ).union(t));
                },
                Err(_) => {},
            }
        }
        i = i + 1;
    }
    proof {
        assert(ps.skip(i as int) =~= Seq::<Seq<char>>::empty());
        assert(usize_set(ids@).union(Set::<nat>::empty()) =~= usize_set(ids@));
    }
    Ok(ids)
}

// ------------------------------------------------------------------------------------------
// /proc/stat
// ------------------------------------------------------------------------------------------

/// The CPU number of a per-CPU line of /proc/stat: the first word with the prefix "cpu"
/// removed, as a number.
pub open spec fn proc_stat_cpu_id(line: Seq<char>) -> Option<nat> {
    let w = words(line);
    if w.len() > 0 && "cpu"@.is_prefix_of(w[0]) {
        parse_unsigned(w[0].subrange(3, w[0].len() as int), usize::MAX as nat)
    } else {
        None
    }
}

/// The CPU number of a per-CPU line of /proc/stat, such as "cpu12 1 2 3".
pub fn proc_stat_line_cpu_id(line: &str) -> (r: Option<usize>)
    ensures
        match r {
            Some(n) => proc_stat_cpu_id(line@) == Some(n as nat),
            None => proc_stat_cpu_id(line@) is None,
        },
{
    let v = chars_of(line);
    assert(v@.subrange(0, v@.len() as int) =~= v@);
    let ws = word_ranges(&v, 0, v.len());
    if ws.len() == 0 {
        return None;
    }
    let (a, b) = ws[0];
    assert(ws@[0] == (a, b));
    let prefix = chars_of("cpu");
    if !range_starts_with(&v, a, b, &prefix) {
        return None;
    }
    assert("cpu"@.len() == 3) by {
        reveal_strlit("cpu");
    }
    assert(v@.subrange(a as int, b as int).subrange(3, b - a) =~= v@.subrange(a + 3, b as int));
    match parse_unsigned_range(&v, a + 3, b, usize::MAX as u64) {
        Some(n) => Some(n as usize),
        None => None,
    }
}

// ------------------------------------------------------------------------------------------
// Merging orders
// ------------------------------------------------------------------------------------------

/// The error of `topological_sort`: the inputs ask for orders that contradict each other.
#[derive(Clone, Copy, Debug, PartialEq, Eq, Structural)]
pub enum TopologicalSortError {
    ConflictingOrders,
}

/// Whether `x` occurs in one of the lists.
pub open spec fn in_lists(lists: Seq<Seq<Seq<char>>>, x: Seq<char>) -> bool {
    exists|l: int, j: int| 0 <= l < lists.len() && 0 <= j < lists[l].len() && #[trigger] lists[l][j] == x
}

/// `order` lists every item of the lists exactly once, and whenever a list has `x` right
/// before `y`, `x` comes before `y` in `order`.
#[verifier::opaque]
pub open spec fn is_merged_order(order: Seq<Seq<char>>, lists: Seq<Seq<Seq<char>>>) -> bool {
    &&& order.no_duplicates()
    &&& forall|k: int| 0 <= k < order.len() ==> in_lists(lists, #[trigger] order[k])
    &&& forall|l: int, j: int|
        0 <= l < lists.len() && 0 <= j < lists[l].len() ==> order.contains(#[trigger] lists[l][j])
    &&& forall|l: int, j: int, a: int, b: int|
        #![trigger lists[l][j], order[a], order[b]]
        0 <= l < lists.len() && 1 <= j < lists[l].len() && 0 <= a < order.len() && 0 <= b
            < order.len() && order[a] == lists[l][j - 1] && order[b] == lists[l][j] ==> a < b
}

/// Some list has `x` right before `y`.
pub open spec fn is_list_edge(lists: Seq<Seq<Seq<char>>>, x: Seq<char>, y: Seq<char>) -> bool {
    exists|l: int, j: int|
        0 <= l < lists.len() && 1 <= j < lists[l].len() && lists[l][j - 1] == x
            && #[trigger] lists[l][j] == y
}

/// A closed walk along the lists' adjacent pairs: at least one step, each from an item to
/// the item that some list has right after it, ending where it starts (an item that a list
/// has twice in a row is such a walk of one step).
pub open spec fn is_list_cycle(lists: Seq<Seq<Seq<char>>>, c: Seq<Seq<char>>) -> bool {
    &&& c.len() >= 2
    &&& c[0] == c[c.len() - 1]
    &&& forall|i: int| 1 <= i < c.len() ==> is_list_edge(lists, c[i - 1], #[trigger] c[i])
}

/// The graph of the lists' adjacent pairs has a cycle.
pub open spec fn has_list_cycle(lists: Seq<Seq<Seq<char>>>) -> bool {
    exists|c: Seq<Seq<char>>| is_list_cycle(lists, c)
}

/// An order that merges the lists leaves no cycle in the graph of their adjacent pairs:
/// along a cycle every item would come after the one before it, the first after itself.
pub proof fn lemma_merged_order_acyclic(order: Seq<Seq<char>>, lists: Seq<Seq<Seq<char>>>)
    requires
        is_merged_order(order, lists),
    ensures
        !has_list_cycle(lists),
{
    if has_list_cycle(lists) {
        let c = choose|c: Seq<Seq<char>>| is_list_cycle(lists, c);
        lemma_cycle_positions(order, lists, c, c.len() - 1);
        let x = c[0];
        let e = c[c.len() - 1];
        assert(x == e);
    }
}

/// The position in a merged order of an item of a list.
spec fn order_position(order: Seq<Seq<char>>, x: Seq<char>) -> int {
    choose|a: int| 0 <= a < order.len() && order[a] == x
}

proof fn lemma_edge_forward(order: Seq<Seq<char>>, lists: Seq<Seq<Seq<char>>>, x: Seq<char>, y: Seq<char>)
    requires
        is_merged_order(order, lists),
        is_list_edge(lists, x, y),
    ensures
        0 <= order_position(order, x) < order.len(),
        order[order_position(order, x)] == x,
        0 <= order_position(order, y) < order.len(),
        order[order_position(order, y)] == y,
        order_position(order, x) < order_position(order, y),
{
    let (l, j) = choose|l: int, j: int|
        0 <= l < lists.len() && 1 <= j < lists[l].len() && lists[l][j - 1] == x
            && #[trigger] lists[l][j] == y;
    lemma_merged_contains(order, lists, l, j - 1);
    lemma_merged_contains(order, lists, l, j);
    let a = order_position(order, x);
    let b = order_position(order, y);
    lemma_merged_respects(order, lists, l, j, a, b);
}

/// Along a cycle, each item after the first sits later in a merged order than the first.
proof fn lemma_cycle_positions(order: Seq<Seq<char>>, lists: Seq<Seq<Seq<char>>>, c: Seq<Seq<char>>, k: int)
    requires
        is_merged_order(order, lists),
        is_list_cycle(lists, c),
        1 <= k < c.len(),
    ensures
        0 <= order_position(order, c[0]) < order.len(),
        order[order_position(order, c[0])] == c[0],
        order_position(order, c[0]) < order_position(order, c[k]),
    decreases k,
{
    assert(is_list_edge(lists, c[k - 1], c[k]));
    lemma_edge_forward(order, lists, c[k - 1], c[k]);
    if k > 1 {
        lemma_cycle_positions(order, lists, c, k - 1);
    } else {
        assert(is_list_edge(lists, c[0], c[1]));
        lemma_edge_forward(order, lists, c[0], c[1]);
    }
}

/// A walk of `k` steps backwards from `v` through a blocked set, each step to a node with an
/// edge into the one before.
spec fn back_walk(u: Set<int>, cs: Seq<Seq<usize>>, v: int, k: nat) -> Seq<int>
    decreases k,
{
    if k == 0 {
        seq![v]
    } else {
        let w = back_walk(u, cs, v, (k - 1) as nat);
        w.push(choose|p: int| u.contains(p) && is_edge(cs, p, w.last()))
    }
}

proof fn lemma_back_walk(u: Set<int>, cs: Seq<Seq<usize>>, n: nat, v: int, k: nat)
    requires
        is_blocked_set(u, cs, n),
        u.contains(v),
    ensures
        back_walk(u, cs, v, k).len() == k + 1,
        forall|i: int| 0 <= i <= k ==> #[trigger] u.contains(back_walk(u, cs, v, k)[i]),
        forall|i: int|
            1 <= i <= k ==> is_edge(cs, #[trigger] back_walk(u, cs, v, k)[i], back_walk(u, cs, v, k)[i - 1]),
    decreases k,
{
    if k > 0 {
        lemma_back_walk(u, cs, n, v, (k - 1) as nat);
        let w = back_walk(u, cs, v, (k - 1) as nat);
        let last = w[k - 1];
        assert(w.last() == last);
        assert(u.contains(last));
        assert(waits_within(u, cs, last));
        reveal(waits_within);
        let p = choose|p: int| u.contains(p) && is_edge(cs, p, w.last());
        let w2 = back_walk(u, cs, v, k);
        assert(w2 == w.push(p));
        assert forall|i: int| 0 <= i <= k implies #[trigger] u.contains(w2[i]) by {
            if i < k {
                assert(w2[i] == w[i]);
            }
        }
        assert forall|i: int| 1 <= i <= k implies is_edge(cs, #[trigger] w2[i], w2[i - 1]) by {
            if i < k {
                assert(w2[i] == w[i] && w2[i - 1] == w[i - 1]);
            }
        }
    }
}

/// A sequence of more than `n` numbers below `n` repeats one.
proof fn lemma_pigeonhole(w: Seq<int>, n: nat)
    requires
        w.len() > n,
        forall|i: int| 0 <= i < w.len() ==> 0 <= #[trigger] w[i] < n,
    ensures
        exists|i: int, j: int| 0 <= i < j < w.len() && #[trigger] w[i] == #[trigger] w[j],
{
    if w.no_duplicates() {
        w.unique_seq_to_set();
        vstd::set_lib::lemma_int_range(0, n as int);
        assert(w.to_set().subset_of(vstd::set_lib::set_int_range(0, n as int))) by {
            assert forall|x: int| w.to_set().contains(x) implies vstd::set_lib::set_int_range(
                0,
                n as int,
            ).contains(x) by {
                let i = choose|i: int| 0 <= i < w.len() && w[i] == x;
                assert(0 <= w[i] < n);
            }
        }
        vstd::set_lib::lemma_len_subset(w.to_set(), vstd::set_lib::set_int_range(0, n as int));
    } else {
        let (i, j) = choose|i: int, j: int| 0 <= i < w.len() && 0 <= j < w.len() && i != j && w[i] == w[j];
        if i < j {
            assert(w[i] == w[j]);
        } else {
            assert(w[j] == w[i]);
        }
    }
}

/// A blocked set of nodes gives a cycle in the graph of the lists' adjacent pairs.
proof fn lemma_blocked_cycle(
    ls: Seq<Seq<Seq<char>>>,
    nv: Seq<Seq<char>>,
    cs: Seq<Seq<usize>>,
    u: Set<int>,
)
    requires
        cs.len() == ls.len(),
        forall|l: int| 0 <= l < cs.len() ==> #[trigger] cs[l].len() == ls[l].len(),
        chains_within(cs, nv.len() as nat),
        forall|l: int, j: int|
            0 <= l < cs.len() && 0 <= j < cs[l].len() ==> nv[#[trigger] cs[l][j] as int] == ls[l][j],
        is_blocked_set(u, cs, nv.len() as nat),
    ensures
        has_list_cycle(ls),
{
    let n = nv.len();
    let v = choose|v: int| #[trigger] u.contains(v);
    lemma_back_walk(u, cs, n, v, n);
    let w = back_walk(u, cs, v, n);
    assert forall|i: int| 0 <= i < w.len() implies 0 <= #[trigger] w[i] < n by {
        assert(u.contains(w[i]));
    }
    lemma_pigeonhole(w, n);
    let (i, j) = choose|i: int, j: int| 0 <= i < j < w.len() && #[trigger] w[i] == #[trigger] w[j];
    let c = Seq::new((j - i + 1) as nat, |t: int| nv[w[j - t]]);
    assert(c[0] == nv[w[j]]);
    assert(c[c.len() - 1] == nv[w[i]]);
    assert forall|t: int| 1 <= t < c.len() implies is_list_edge(ls, c[t - 1], #[trigger] c[t]) by {
        let p = w[j - t + 1];
        let q = w[j - t];
        assert(1 <= j - t + 1 <= n);
        assert(is_edge(cs, w[j - t + 1], w[j - t + 1 - 1]));
        assert(is_edge(cs, p, q));
        let (l, jj) = choose|l: int, jj: int|
            0 <= l < cs.len() && 1 <= jj < cs[l].len() && cs[l][jj - 1] == p && #[trigger] cs[l][jj] == q;
        assert(nv[cs[l][jj - 1] as int] == ls[l][jj - 1]);
        assert(nv[cs[l][jj] as int] == ls[l][jj]);
        assert(c[t - 1] == nv[p]);
        assert(c[t] == nv[q]);
        assert(ls[l][jj - 1] == c[t - 1] && ls[l][jj] == c[t]);
    }
    assert(is_list_cycle(ls, c));
}

fn find_string(nodes: &Vec<String>, s: &String) -> (r: Option<usize>)
    ensures
        match r {
            Some(i) => i < nodes@.len() && nodes@[i as int]@ == s@,
            None => forall|i: int| 0 <= i < nodes@.len() ==> nodes@[i]@ != s@,
        },
{
    let mut i: usize = 0;
    while i < nodes.len()
        invariant
            0 <= i <= nodes@.len(),
            forall|k: int| 0 <= k < i ==> nodes@[k]@ != s@,
        decreases nodes.len() - i,
    {
        if nodes[i] == *s {
            return Some(i);
        }
        i = i + 1;
    }
    None
}

proof fn lemma_min_witness(f: spec_fn(int) -> bool, a: int)
    requires
        0 <= a,
        f(a),
    ensures
        exists|m: int| 0 <= m <= a && #[trigger] f(m) && forall|k: int| 0 <= k < m ==> !#[trigger] f(k),
    decreases a,
{
    if exists|k: int| 0 <= k < a && #[trigger] f(k) {
        let k = choose|k: int| 0 <= k < a && #[trigger] f(k);
        lemma_min_witness(f, k);
    } else {
        assert(forall|k: int| 0 <= k < a ==> !#[trigger] f(k));
    }
}

/// The distinct items of the lists, in order of first appearance, and each list as
/// positions among them.
fn index_lists(inputs: &Vec<&Vec<String>>) -> (r: (Vec<String>, Vec<Vec<usize>>))
    ensures
        forall|a: int, b: int| 0 <= a < b < r.0@.len() ==> r.0@[a]@ != r.0@[b]@,
        forall|a: int| 0 <= a < r.0@.len() ==> in_lists(inputs.deep_view(), #[trigger] r.0@[a]@),
        r.1.deep_view().len() == inputs.deep_view().len(),
        forall|l: int| 0 <= l < r.1.deep_view().len() ==> #[trigger] r.1.deep_view()[l].len()
            == inputs.deep_view()[l].len(),
        chains_within(r.1.deep_view(), r.0@.len() as nat),
        forall|l: int, j: int|
            0 <= l < r.1.deep_view().len() && 0 <= j < r.1.deep_view()[l].len() ==> r.0@[#[trigger] r.1.deep_view()[l][j] as int]@
                == inputs.deep_view()[l][j],
{
    let ghost ls = inputs.deep_view();
    let mut nodes: Vec<String> = Vec::new();
    let mut chains: Vec<Vec<usize>> = Vec::new();
    let mut l: usize = 0;
    while l < inputs.len()
        invariant
            ls == inputs.deep_view(),
            0 <= l <= ls.len(),
            forall|a: int, b: int| 0 <= a < b < nodes@.len() ==> nodes@[a]@ != nodes@[b]@,
            forall|a: int| 0 <= a < nodes@.len() ==> in_lists(ls, #[trigger] nodes@[a]@),
            chains.deep_view().len() == l,
            forall|l2: int| 0 <= l2 < l ==> #[trigger] chains.deep_view()[l2].len() == ls[l2].len(),
            chains_within(chains.deep_view(), nodes@.len() as nat),
            forall|l2: int, j: int|
                0 <= l2 < l && 0 <= j < chains.deep_view()[l2].len() ==> nodes@[#[trigger] chains.deep_view()[l2][j] as int]@
                    == ls[l2][j],
        decreases inputs.len() - l,
    {
        let list: &Vec<String> = inputs[l];
        assert(list.deep_view() == ls[l as int]);
        let mut chain: Vec<usize> = Vec::new();
        let mut j: usize = 0;
        while j < list.len()
            invariant
                ls == inputs.deep_view(),
                0 <= l < ls.len(),
                list.deep_view() == ls[l as int],
                0 <= j <= list@.len(),
                chain@.len() == j,
                forall|a: int, b: int| 0 <= a < b < nodes@.len() ==> nodes@[a]@ != nodes@[b]@,
                forall|a: int| 0 <= a < nodes@.len() ==> in_lists(ls, #[trigger] nodes@[a]@),
                forall|k: int| 0 <= k < j ==> #[trigger] chain@[k] < nodes@.len() && nodes@[chain@[k] as int]@
                    == ls[l as int][k],
                chains.deep_view().len() == l,
                forall|l2: int| 0 <= l2 < l ==> #[trigger] chains.deep_view()[l2].len() == ls[l2].len(),
                chains_within(chains.deep_view(), nodes@.len() as nat),
                forall|l2: int, j2: int|
                    0 <= l2 < l && 0 <= j2 < chains.deep_view()[l2].len() ==> nodes@[#[trigger] chains.deep_view()[l2][j2] as int]@
                        == ls[l2][j2],
            decreases list.len() - j,
        {
            let item = &list[j];
            assert(item@ == ls[l as int][j as int]);
            let idx = match find_string(&nodes, item) {
                Some(k) => k,
                None => {
                    let ghost before = nodes@;
                    nodes.push(item.clone());
                    proof {
                        assert(in_lists(ls, ls[l as int][j as int]));
                        assert forall|a: int| 0 <= a < nodes@.len() implies in_lists(
                            ls,
                            #[trigger] nodes@[a]@,
                        ) by {
                            if a < before.len() {
                                assert(nodes@[a] == before[a]);
                            }
                        }
                    }
                    nodes.len() - 1
                },
            };
            chain.push(idx);
            j = j + 1;
        }
        let ghost before = chains.deep_view();
        assert(chain.deep_view() =~= chain@);
        chains.push(chain);
        assert(chains.deep_view() =~= before.push(chain@));
        l = l + 1;
    }
    (nodes, chains)
}

/// Merges several orders of items into one order of all their items that respects each
/// of them, as a topological sort. Fails if and only if the orders contradict each other.
pub fn topological_sort(inputs: &Vec<&Vec<String>>) -> (r: Result<Vec<String>, TopologicalSortError>)
    ensures
        match r {
            Ok(order) => is_merged_order(order@.map_values(|s: String| s@), inputs.deep_view()),
            Err(_) => forall|order: Seq<Seq<char>>| !is_merged_order(order, inputs.deep_view()),
        },
        r is Ok <==> !has_list_cycle(inputs.deep_view()),
{
    let ghost ls = inputs.deep_view();
    let (nodes, chains) = index_lists(inputs);
    let ghost cs = chains.deep_view();
    match order_nodes(nodes.len(), &chains) {
        Err(u) => {
            proof {
                lemma_no_merged_order(ls, nodes@.map_values(|s: String| s@), cs, u@);
                lemma_blocked_cycle(ls, nodes@.map_values(|s: String| s@), cs, u@);
            }
            Err(TopologicalSortError::ConflictingOrders)
        },
        Ok(o) => {
            let mut out: Vec<String> = Vec::new();
            let mut k: usize = 0;
            while k < o.len()
                invariant
                    0 <= k <= o@.len(),
                    out@.len() == k,
                    forall|x: int| 0 <= x < o@.len() ==> #[trigger] o@[x] < nodes@.len(),
                    forall|x: int| 0 <= x < k ==> #[trigger] out@[x]@ == nodes@[o@[x] as int]@,
                decreases o.len() - k,
            {
                out.push(nodes[o[k]].clone());
                k = k + 1;
            }
            proof {
                let nv = nodes@.map_values(|s: String| s@);
                let ov = out@.map_values(|s: String| s@);
                assert forall|x: int| 0 <= x < ov.len() implies #[trigger] ov[x] == nv[o@[x] as int] by {}
                lemma_merged_order(ls, nv, cs, o@, ov);
                lemma_merged_order_acyclic(ov, ls);
            }
            Ok(out)
        },
    }
}

proof fn lemma_merged_order(
    ls: Seq<Seq<Seq<char>>>,
    nv: Seq<Seq<char>>,
    cs: Seq<Seq<usize>>,
    o: Seq<usize>,
    ov: Seq<Seq<char>>,
)
    requires
        forall|a: int, b: int| 0 <= a < b < nv.len() ==> nv[a] != nv[b],
        forall|a: int| 0 <= a < nv.len() ==> in_lists(ls, #[trigger] nv[a]),
        cs.len() == ls.len(),
        forall|l: int| 0 <= l < cs.len() ==> #[trigger] cs[l].len() == ls[l].len(),
        chains_within(cs, nv.len() as nat),
        forall|l: int, j: int|
            0 <= l < cs.len() && 0 <= j < cs[l].len() ==> nv[#[trigger] cs[l][j] as int] == ls[l][j],
        is_node_order(o, cs, nv.len() as nat),
        ov.len() == o.len(),
        forall|x: int| 0 <= x < ov.len() ==> #[trigger] ov[x] == nv[o[x] as int],
    ensures
        is_merged_order(ov, ls),
{
    reveal(is_merged_order);
    assert forall|a: int, b: int| 0 <= a < ov.len() && 0 <= b < ov.len() && a != b implies ov[a]
        != ov[b] by {
        assert(o[a] != o[b]);
        assert(o[a] < nv.len() && o[b] < nv.len());
        if o[a] < o[b] {
            assert(nv[o[a] as int] != nv[o[b] as int]);
        } else {
            assert(nv[o[b] as int] != nv[o[a] as int]);
        }
    }
    assert forall|k: int| 0 <= k < ov.len() implies in_lists(ls, #[trigger] ov[k]) by {
        assert(o[k] < nv.len());
        assert(in_lists(ls, nv[o[k] as int]));
    }
    assert forall|l: int, j: int| 0 <= l < ls.len() && 0 <= j < ls[l].len() implies ov.contains(
        #[trigger] ls[l][j],
    ) by {
        let v = cs[l][j];
        assert(v < nv.len());
        assert(o.contains(v));
        let x = choose|x: int| 0 <= x < o.len() && o[x] == v;
        assert(ov[x] == ls[l][j]);
    }
    assert forall|l: int, j: int, a: int, b: int|
        #![trigger ls[l][j], ov[a], ov[b]]
        0 <= l < ls.len() && 1 <= j < ls[l].len() && 0 <= a < ov.len() && 0 <= b < ov.len()
            && ov[a] == ls[l][j - 1] && ov[b] == ls[l][j] implies a < b by {
        let p = cs[l][j - 1];
        let q = cs[l][j];
        assert(p < nv.len() && q < nv.len());
        assert(o[a] < nv.len() && o[b] < nv.len());
        assert(nv[o[a] as int] == nv[p as int]);
        assert(nv[o[b] as int] == nv[q as int]);
        assert(o[a] == p) by {
            if o[a] < p {
                assert(nv[o[a] as int] != nv[p as int]);
            } else if o[a] > p {
                assert(nv[p as int] != nv[o[a] as int]);
            }
        }
        assert(o[b] == q) by {
            if o[b] < q {
                assert(nv[o[b] as int] != nv[q as int]);
            } else if o[b] > q {
                assert(nv[q as int] != nv[o[b] as int]);
            }
        }
        assert(is_edge(cs, p as int, q as int)) by {
            assert(cs[l][j - 1] == p && cs[l][j] == q);
        }
    }
}

proof fn lemma_no_merged_order(
    ls: Seq<Seq<Seq<char>>>,
    nv: Seq<Seq<char>>,
    cs: Seq<Seq<usize>>,
    u: Set<int>,
)
    requires
        forall|a: int| 0 <= a < nv.len() ==> in_lists(ls, #[trigger] nv[a]),
        cs.len() == ls.len(),
        forall|l: int| 0 <= l < cs.len() ==> #[trigger] cs[l].len() == ls[l].len(),
        chains_within(cs, nv.len() as nat),
        forall|l: int, j: int|
            0 <= l < cs.len() && 0 <= j < cs[l].len() ==> nv[#[trigger] cs[l][j] as int] == ls[l][j],
        is_blocked_set(u, cs, nv.len() as nat),
    ensures
        forall|order: Seq<Seq<char>>| !is_merged_order(order, ls),
{
    assert forall|order: Seq<Seq<char>>| !is_merged_order(order, ls) by {
        if is_merged_order(order, ls) {
            lemma_not_merged(ls, nv, cs, u, order);
        }
    }
}

proof fn lemma_merged_contains(order: Seq<Seq<char>>, ls: Seq<Seq<Seq<char>>>, l: int, j: int)
    requires
        is_merged_order(order, ls),
        0 <= l < ls.len(),
        0 <= j < ls[l].len(),
    ensures
        order.contains(ls[l][j]),
{
    reveal(is_merged_order);
}

proof fn lemma_merged_respects(
    order: Seq<Seq<char>>,
    ls: Seq<Seq<Seq<char>>>,
    l: int,
    j: int,
    a: int,
    b: int,
)
    requires
        is_merged_order(order, ls),
        0 <= l < ls.len(),
        1 <= j < ls[l].len(),
        0 <= a < order.len(),
        0 <= b < order.len(),
        order[a] == ls[l][j - 1],
        order[b] == ls[l][j],
    ensures
        a < b,
{
    reveal(is_merged_order);
}

/// A position of `order` that holds a node of `u`.
spec fn holds_blocked(order: Seq<Seq<char>>, nv: Seq<Seq<char>>, u: Set<int>, a: int) -> bool {
    0 <= a < order.len() && exists|v: int| #[trigger] u.contains(v) && order[a] == nv[v]
}

proof fn lemma_not_merged(
    ls: Seq<Seq<Seq<char>>>,
    nv: Seq<Seq<char>>,
    cs: Seq<Seq<usize>>,
    u: Set<int>,
    order: Seq<Seq<char>>,
)
    requires
        forall|a: int| 0 <= a < nv.len() ==> in_lists(ls, #[trigger] nv[a]),
        cs.len() == ls.len(),
        forall|l: int| 0 <= l < cs.len() ==> #[trigger] cs[l].len() == ls[l].len(),
        chains_within(cs, nv.len() as nat),
        forall|l: int, j: int|
            0 <= l < cs.len() && 0 <= j < cs[l].len() ==> nv[#[trigger] cs[l][j] as int] == ls[l][j],
        is_blocked_set(u, cs, nv.len() as nat),
    ensures
        !is_merged_order(order, ls),
{
    if !is_merged_order(order, ls) {
        return;
    }
    let f = |a: int| holds_blocked(order, nv, u, a);
    let v0 = choose|v: int| #[trigger] u.contains(v);
    assert(0 <= v0 < nv.len());
    assert(in_lists(ls, nv[v0]));
    let (l0, j0) = choose|l0: int, j0: int|
        0 <= l0 < ls.len() && 0 <= j0 < ls[l0].len() && #[trigger] ls[l0][j0] == nv[v0];
    lemma_merged_contains(order, ls, l0, j0);
    let a0 = choose|a: int| 0 <= a < order.len() && order[a] == ls[l0][j0];
    assert(f(a0));
    lemma_min_witness(f, a0);
    let m = choose|m: int| 0 <= m <= a0 && #[trigger] f(m) && forall|k: int| 0 <= k < m ==> !#[trigger] f(k);
    assert(holds_blocked(order, nv, u, m));
    let v = choose|v: int| #[trigger] u.contains(v) && order[m] == nv[v];
    assert(waits_within(u, cs, v));
    assert(exists|p: int| u.contains(p) && is_edge(cs, p, v)) by {
        reveal(waits_within);
    }
    let p = choose|p: int| u.contains(p) && is_edge(cs, p, v);
    let (l, j) = choose|l: int, j: int|
        0 <= l < cs.len() && 1 <= j < cs[l].len() && cs[l][j - 1] == p && #[trigger] cs[l][j] == v;
    assert(ls[l][j] == nv[v]);
    assert(ls[l][j - 1] == nv[p]);
    lemma_merged_contains(order, ls, l, j - 1);
    let b = choose|b: int| 0 <= b < order.len() && order[b] == ls[l][j - 1];
    lemma_merged_respects(order, ls, l, j, b, m);
    assert(holds_blocked(order, nv, u, b));
    assert(f(b));
}

// ------------------------------------------------------------------------------------------
// Online CPUs and the limit on open files
// ------------------------------------------------------------------------------------------

/// The CPU numbers of the per-CPU lines of /proc/stat, in the order of the lines.
pub open spec fn proc_stat_cpu_ids(ls: Seq<Seq<char>>) -> Seq<nat>
    decreases ls.len(),
{
    if ls.len() == 0 {
        Seq::<nat>::empty()
    } else {
        let ids = proc_stat_cpu_ids(ls.drop_last());
        match proc_stat_cpu_id(ls.last()) {
            Some(n) => ids.push(n),
            None => ids,
        }
    }
}

pub open spec fn usize_nats(v: Seq<usize>) -> Seq<nat> {
    v.map_values(|x: usize| x as nat)
}

/// The CPUs of the per-CPU lines of the text of /proc/stat, in ascending order: the online
/// CPUs, when sysfs does not list them.
pub fn cpu_ids_from_proc_stat(text: &str) -> (r: Vec<usize>)
    ensures
        usize_nats(r@).to_multiset() == proc_stat_cpu_ids(lines(text@)).to_multiset(),
        forall|i: int, j: int| 0 <= i < j < r@.len() ==> r@[i] <= r@[j],
{
    broadcast use vstd::seq_lib::group_to_multiset_ensures;

    let v = chars_of(text);
    assert(v@.subrange(0, v@.len() as int) =~= v@);
    let ls = line_ranges(&v, 0, v.len());
    let ghost lv = lines(text@);
    let mut out: Vec<usize> = Vec::new();
    let mut i: usize = 0;
    assert(lv.take(0) =~= Seq::<Seq<char>>::empty());
    assert(usize_nats(out@) =~= Seq::<nat>::empty());
    while i < ls.len()
        invariant
            lv == pieces(v@, ls@),
            ranges_within(ls@, 0, v@.len() as int),
            0 <= i <= ls@.len(),
            usize_nats(out@).to_multiset() == proc_stat_cpu_ids(lv.take(i as int)).to_multiset(),
            forall|a: int, b: int| 0 <= a < b < out@.len() ==> out@[a] <= out@[b],
        decreases ls.len() - i,
    {
        let (a, b) = ls[i];
        assert(ls@[i as int] == (a, b));
        assert(lv[i as int] == v@.subrange(a as int, b as int));
        assert(lv.take(i + 1).drop_last() =~= lv.take(i as int));
        assert(lv.take(i + 1).last() == lv[i as int]);
        let line = string_of(&v, a, b);
        match proc_stat_line_cpu_id(line.as_str()) {
            Some(id) => {
                let mut k: usize = 0;
                while k < out.len() && out[k] <= id
                    invariant
                        0 <= k <= out@.len(),
                        forall|j: int| 0 <= j < k ==> out@[j] <= id,
                    decreases out.len() - k,
                {
                    k = k + 1;
                }
                let ghost before = out@;
                out.insert(k, id);
                proof {
                    assert(usize_nats(out@) =~= usize_nats(before).insert(k as int, id as nat));
                    vstd::seq_lib::to_multiset_insert(usize_nats(before), k as int, id as nat);
                    vstd::seq_lib::to_multiset_build(proc_stat_cpu_ids(lv.take(i as int)), id as nat);
                    assert forall|x: int, y: int| 0 <= x < y < out@.len() implies out@[x] <= out@[y] by {
                        if y < k {
                            assert(out@[x] == before[x] && out@[y] == before[y]);
                        } else if y == k {
                            assert(out@[x] == before[x]);
                        } else if x == k {
                            assert(out@[y] == before[y - 1]);
                            assert(!(before[k as int] <= id) || k == before.len());
                        } else if x < k {
                            assert(out@[x] == before[x] && out@[y] == before[y - 1]);
                        } else {
                            assert(out@[x] == before[x - 1] && out@[y] == before[y - 1]);
                        }
                    }
                }
            },
            None => {},
        }
        i = i + 1;
    }
    assert(lv.take(ls@.len() as int) =~= lv);
    out
}

/// What to do about the limit on open files: nothing when the required number is within
/// the current limit; raise it to the required number when that is below the maximum; else
/// refuse.
#[derive(Clone, Copy, Debug, PartialEq, Eq, Structural)]
pub enum FdLimitAction {
    Keep,
    /// Raise the limit to the number held.
    Raise(u64),
    Refuse,
}

pub open spec fn fd_limit_action_spec(required: u64, current: u64, max: u64) -> FdLimitAction {
    if required <= current {
        FdLimitAction::Keep
    } else if required >= max {
        FdLimitAction::Refuse
    } else {
        FdLimitAction::Raise(required)
    }
}

/// The action on the limit on open files for a required number of files, given the current
/// (soft) and maximum (hard) limits.
pub fn fd_limit_action(required: u64, current: u64, max: u64) -> (r: FdLimitAction)
    ensures
        r == fd_limit_action_spec(required, current, max),
{
    if required <= current {
        FdLimitAction::Keep
    } else if required >= max {
        FdLimitAction::Refuse
    } else {
        FdLimitAction::Raise(required)
    }
}

/// Why the limit on open files was not raised.
#[derive(Clone, Copy, Debug, PartialEq, Eq, Structural)]
pub enum FdLimitError {
    /// The limits could not be read.
    ReadFailed,
    /// The required number of files is not below the maximum limit.
    TooManyRequired { required: u64, max: u64 },
    /// The limit could not be raised.
    RaiseFailed,
}

/// `rlimit::Resource::NOFILE.get()`: the current (soft) and maximum (hard) limits on open
/// files of this process, or `None` when the system call fails. The limits are the
/// system's, so nothing is stated of them.
#[verifier::external_body]
fn nofile_limits() -> Option<(u64, u64)> {
    rlimit::Resource::NOFILE.get().ok()
}

/// `rlimit::increase_nofile_limit`: raises the soft limit on open files towards `lim` (up
/// to the hard limit) and gives the soft limit then in force, or `None` when a system call
/// fails. The limit reached is the system's, so nothing is stated of it.
#[verifier::external_body]
fn increase_nofile_limit(lim: u64) -> Option<u64> {
    rlimit::increase_nofile_limit(lim).ok()
}

/// What raising the limit on open files to `required` gives, for what the system answered:
/// the current and maximum limits (`None` when they could not be read), and whether raising
/// the limit succeeded (where it is tried).
pub open spec fn fd_limit_outcome(required: u64, limits: Option<(u64, u64)>, raised: bool) -> Result<
    (),
    FdLimitError,
> {
    match limits {
        None => Err(FdLimitError::ReadFailed),
        Some((current, max)) => match fd_limit_action_spec(required, current, max) {
            FdLimitAction::Keep => Ok(()),
            FdLimitAction::Refuse => Err(FdLimitError::TooManyRequired { required, max }),
            FdLimitAction::Raise(_) => if raised {
                Ok(())
            } else {
                Err(FdLimitError::RaiseFailed)
            },
        },
    }
}

/// Raises the limit on open files of this process to the required number, if it is not
/// already there. The limits and whether raising them succeeds are the system's: the result
/// is `fd_limit_outcome` of the required number for some answer of the system.
pub fn raise_fd_limit(num_required_fds: u64) -> (r: Result<(), FdLimitError>)
    ensures
        exists|limits: Option<(u64, u64)>, raised: bool|
            #![trigger fd_limit_outcome(num_required_fds, limits, raised)]
            r == fd_limit_outcome(num_required_fds, limits, raised),
        r matches Err(FdLimitError::TooManyRequired { required, max }) ==> required == num_required_fds
            && num_required_fds >= max,
{
    let (current, max) = match nofile_limits() {
        Some(limits) => limits,
        None => {
            assert(fd_limit_outcome(num_required_fds, None, false) == Err::<(), FdLimitError>(
                FdLimitError::ReadFailed,
            ));
            return Err(FdLimitError::ReadFailed);
        },
    };
    let ghost limits = Some((current, max));
    match fd_limit_action(num_required_fds, current, max) {
        FdLimitAction::Keep => {
            assert(fd_limit_outcome(num_required_fds, limits, false) == Ok::<(), FdLimitError>(()));
            Ok(())
        },
        FdLimitAction::Refuse => {
            let r = Err(FdLimitError::TooManyRequired { required: num_required_fds, max });
            assert(fd_limit_outcome(num_required_fds, limits, false) == r);
            r
        },
        FdLimitAction::Raise(to) => match increase_nofile_limit(to) {
            Some(_) => {
                assert(fd_limit_outcome(num_required_fds, limits, true) == Ok::<(), FdLimitError>(
                    (),
                ));
                Ok(())
            },
            None => {
                assert(fd_limit_outcome(num_required_fds, limits, false) == Err::<(), FdLimitError>(
                    FdLimitError::RaiseFailed,
                ));
                Err(FdLimitError::RaiseFailed)
            },
        },
    }
}


/// How many seconds a subprocess should run for, given the nanoseconds left until the
/// expected end of the recording (0 once the end is reached): none once the end is reached,
/// else the whole seconds left plus one.
pub fn get_sub_process_duration_seconds(remaining_nanos: u128) -> (r: u64)
    requires
        remaining_nanos / 1_000_000_000 < u64::MAX,
    ensures
        r == (if remaining_nanos == 0 {
            0
        } else {
            remaining_nanos / 1_000_000_000 + 1
        }),
{
    if remaining_nanos == 0 {
        return 0;
    }
    let secs = remaining_nanos / 1_000_000_000;
    (secs as u64) + 1
}

/// The name under which a run's graph file is copied into the report: prefixed with the run
/// name and '-', unless it already is, so that graphs of different runs do not collide.
pub fn graph_dest_file_name(filename: &str, run_name: &str) -> (r: String)
    ensures
        r@ == (if (run_name@ + "-"@).is_prefix_of(filename@) {
            filename@
        } else {
            run_name@ + "-"@ + filename@
        }),
{
    let mut prefix = String::new();
    push_str(&mut prefix, run_name);
    push_str(&mut prefix, "-");
    if str_starts_with(filename, prefix.as_str()) {
        filename.to_string()
    } else {
        push_str(&mut prefix, filename);
        prefix
    }
}

} // verus!

//! PMU statistics: the PMU event strings of the configuration, "pmu/field=value,.../",
//! read into the PMU's name and its fields with their values.
use crate::text::{
    chars_of, index_of_char, lemma_index_of_char, find_char, parse_unsigned, parse_unsigned_range,
    pieces, push_range, range_starts_with, ranges_within, split, split_ranges, string_of,
    trim, trim_bounds, word_ranges, words, decimal, push_decimal, push_str, lemma_parse_decimal,
    lemma_decimal_digits, is_digit, lemma_split_append, lemma_split_without,
};
use vstd::prelude::*;

verus! {

/// The data type of PMU statistics.
#[derive(Debug, Clone)]
pub struct PerfStat;

impl PerfStat {
    pub fn new() -> Self {
        PerfStat
    }
}

/// Why a PMU event string was refused.
#[derive(Debug, Clone, Copy, PartialEq, Eq, Structural)]
pub enum PmuEventError {
    /// There is no '/' after the PMU's name.
    MissingSlash,
    /// A field has no '='.
    InvalidField,
    /// A value is neither a decimal `u64` nor "0x" and a hexadecimal `u64`.
    InvalidValue,
}

pub open spec fn is_hex_digit(c: char) -> bool {
    ('0' <= c && c <= '9') || ('a' <= c && c <= 'f') || ('A' <= c && c <= 'F')
}

pub open spec fn hex_digit_value(c: char) -> nat {
    if '0' <= c && c <= '9' {
        (c as u32 - '0' as u32) as nat
    } else if 'a' <= c && c <= 'f' {
        (c as u32 - 'a' as u32 + 10) as nat
    } else {
        (c as u32 - 'A' as u32 + 10) as nat
    }
}

pub open spec fn hex_value(d: Seq<char>) -> nat
    decreases d.len(),
{
    if d.len() == 0 {
        0
    } else {
        hex_value(d.drop_last()) * 16 + hex_digit_value(d.last())
    }
}

/// `u64::from_str_radix(s, 16)`: an optional '+', then one or more hexadecimal digits of
/// a value that fits a `u64`.
pub open spec fn parse_hex(s: Seq<char>) -> Option<nat> {
    let d = hex_digits(s);
    if d.len() > 0 && all_hex(d) && hex_value(d) <= u64::MAX {
        Some(hex_value(d))
    } else {
        None
    }
}

/// The digits of a hexadecimal number: the text without an optional leading '+'.
pub open spec fn hex_digits(s: Seq<char>) -> Seq<char> {
    if s.len() > 0 && s[0] == '+' {
        s.drop_first()
    } else {
        s
    }
}

pub open spec fn all_hex(d: Seq<char>) -> bool {
    forall|i: int| 0 <= i < d.len() ==> is_hex_digit(#[trigger] d[i])
}

/// A value of a field: "0x" and hexadecimal digits, or decimal digits.
pub open spec fn field_value(s: Seq<char>) -> Option<nat> {
    if "0x"@.is_prefix_of(s) {
        parse_hex(s.skip(2))
    } else {
        parse_unsigned(s, u64::MAX as nat)
    }
}

/// The fields of the comma-separated text after the PMU's name, from the `k`-th piece on,
/// after the fields `acc` of the pieces before: empty pieces are skipped, and each other
/// piece is "key=value" with whitespace around the key and the value.
pub open spec fn pmu_fields(
    pieces: Seq<Seq<char>>,
    k: nat,
    acc: Seq<(Seq<char>, u64)>,
) -> Result<Seq<(Seq<char>, u64)>, PmuEventError>
    decreases pieces.len() - k,
{
    if k >= pieces.len() {
        Ok(acc)
    } else {
        let f = trim(pieces[k as int]);
        if f.len() == 0 {
            pmu_fields(pieces, k + 1, acc)
        } else {
            let j = index_of_char(f, '=');
            if j < 0 {
                Err(PmuEventError::InvalidField)
            } else {
                match field_value(trim(f.subrange(j + 1, f.len() as int))) {
                    None => Err(PmuEventError::InvalidValue),
                    Some(v) => pmu_fields(
                        pieces,
                        k + 1,
                        acc.push((trim(f.subrange(0, j)), v as u64)),
                    ),
                }
            }
        }
    }
}

/// A PMU event string "pmu/field=value,field=value,.../": the PMU's name (before the first
/// '/') and its fields (after it, without one trailing '/').
pub open spec fn pmu_event(s: Seq<char>) -> Result<(Seq<char>, Seq<(Seq<char>, u64)>), PmuEventError> {
    let i = index_of_char(s, '/');
    if i < 0 {
        Err(PmuEventError::MissingSlash)
    } else {
        let rest = s.subrange(i + 1, s.len() as int);
        let fields = if rest.len() > 0 && rest.last() == '/' {
            rest.drop_last()
        } else {
            rest
        };
        match pmu_fields(split(fields, ','), 0, Seq::<(Seq<char>, u64)>::empty()) {
            Ok(fs) => Ok((s.subrange(0, i), fs)),
            Err(e) => Err(e),
        }
    }
}

fn parse_hex_range(v: &Vec<char>, lo: usize, hi: usize) -> (r: Option<u64>)
    requires
        lo <= hi <= v@.len(),
    ensures
        match r {
            Some(x) => parse_hex(v@.subrange(lo as int, hi as int)) == Some(x as nat),
            None => parse_hex(v@.subrange(lo as int, hi as int)) is None,
        },
{
    let ghost s = v@.subrange(lo as int, hi as int);
    let start = if lo < hi && v[lo] == '+' {
        lo + 1
    } else {
        lo
    };
    let ghost d = hex_digits(s);
    assert(d =~= v@.subrange(start as int, hi as int));
    if start == hi {
        return None;
    }
    let mut acc: u64 = 0;
    let mut i = start;
    assert(v@.subrange(start as int, start as int) =~= Seq::<char>::empty());
    while i < hi
        invariant
            lo <= start <= i <= hi <= v.len(),
            d == v@.subrange(start as int, hi as int),
            s == v@.subrange(lo as int, hi as int),
            d == hex_digits(s),
            acc as nat == hex_value(v@.subrange(start as int, i as int)),
            forall|j: int| start <= j < i ==> is_hex_digit(#[trigger] v@[j]),
        decreases hi - i,
    {
        let c = v[i];
        let ghost next = v@.subrange(start as int, i + 1);
        assert(next.drop_last() =~= v@.subrange(start as int, i as int));
        assert(next.last() == c);
        let digit: u64 = if '0' <= c && c <= '9' {
            (c as u32 - '0' as u32) as u64
        } else if 'a' <= c && c <= 'f' {
            (c as u32 - 'a' as u32 + 10) as u64
        } else if 'A' <= c && c <= 'F' {
            (c as u32 - 'A' as u32 + 10) as u64
        } else {
            assert(d[i - start] == c);
            assert(!is_hex_digit(d[i - start]));
            assert(!all_hex(d));
            return None;
        };
        assert(digit as nat == hex_digit_value(c));
        let wide: u128 = (acc as u128) * 16 + (digit as u128);
        assert(wide == hex_value(next));
        if wide > u64::MAX as u128 {
            proof {
                assert(next =~= d.subrange(0, i + 1 - start));
                if all_hex(d) {
                    lemma_hex_prefix(d, i + 1 - start);
                    assert(hex_value(d) > u64::MAX);
                }
            }
            return None;
        }
        acc = wide as u64;
        i = i + 1;
    }
    assert(all_hex(d)) by {
        assert forall|j: int| 0 <= j < d.len() implies is_hex_digit(#[trigger] d[j]) by {
            assert(d[j] == v@[start + j]);
        }
    }
    Some(acc)
}

proof fn lemma_hex_prefix(d: Seq<char>, k: int)
    requires
        0 <= k <= d.len(),
        all_hex(d),
    ensures
        hex_value(d.subrange(0, k)) <= hex_value(d),
    decreases d.len() - k,
{
    if k < d.len() {
        lemma_hex_prefix(d, k + 1);
        assert(d.subrange(0, k + 1).drop_last() =~= d.subrange(0, k));
    } else {
        assert(d.subrange(0, k) =~= d);
    }
}

fn field_value_range(v: &Vec<char>, lo: usize, hi: usize) -> (r: Option<u64>)
    requires
        lo <= hi <= v@.len(),
    ensures
        match r {
            Some(x) => field_value(v@.subrange(lo as int, hi as int)) == Some(x as nat),
            None => field_value(v@.subrange(lo as int, hi as int)) is None,
        },
{
    proof {
        reveal_strlit("0x");
    }
    if range_starts_with(v, lo, hi, &chars_of("0x")) {
        assert(v@.subrange(lo as int, hi as int).skip(2) =~= v@.subrange(lo + 2, hi as int));
        parse_hex_range(v, lo + 2, hi)
    } else {
        parse_unsigned_range(v, lo, hi, u64::MAX)
    }
}

/// A PMU event read from its string: the PMU's name and its fields with their values.
#[derive(Debug, Clone)]
pub struct PmuEventString {
    pub pmu_name: String,
    pub fields: Vec<(String, u64)>,
}

pub open spec fn fields_view(v: Seq<(String, u64)>) -> Seq<(Seq<char>, u64)> {
    v.map_values(|e: (String, u64)| (e.0@, e.1))
}

impl PmuEventString {
    /// Reads a PMU event string such as "armv8_pmuv3_0/event=0x11,umask=0/".
    pub fn from_event_string(event_string: &str) -> (r: Result<Self, PmuEventError>)
        ensures
            match (r, pmu_event(event_string@)) {
                (Ok(p), Ok((name, fields))) => p.pmu_name@ == name && fields_view(p.fields@) == fields,
                (Err(e), Err(f)) => e == f,
                _ => false,
            },
    {
        let v = chars_of(event_string);
        let n = v.len();
        assert(v@.subrange(0, n as int) =~= v@);
        proof {
            lemma_index_of_char(event_string@, '/');
        }
        let i = match find_char(&v, 0, n, '/') {
            Some(i) => i,
            None => {
                return Err(PmuEventError::MissingSlash);
            },
        };
        let end = if n > i + 1 && v[n - 1] == '/' {
            n - 1
        } else {
            n
        };
        let ghost rest = event_string@.subrange(i + 1, n as int);
        let ghost fields_text = if rest.len() > 0 && rest.last() == '/' {
            rest.drop_last()
        } else {
            rest
        };
        assert(fields_text =~= v@.subrange(i + 1, end as int));
        let ps = split_ranges(&v, i + 1, end, ',');
        let ghost pv = split(fields_text, ',');
        let ghost goal = pmu_fields(pv, 0, Seq::<(Seq<char>, u64)>::empty());
        let mut fields: Vec<(String, u64)> = Vec::new();
        let mut k: usize = 0;
        assert(fields_view(fields@) =~= Seq::<(Seq<char>, u64)>::empty());
        while k < ps.len()
            invariant
                pv == pieces(v@, ps@),
                pv == split(fields_text, ','),
                v@ == event_string@,
                index_of_char(event_string@, '/') == i,
                i + 1 <= end <= n == v@.len(),
                fields_text == (if rest.len() > 0 && rest.last() == '/' {
                    rest.drop_last()
                } else {
                    rest
                }),
                rest == event_string@.subrange(i + 1, n as int),
                ranges_within(ps@, i + 1, end as int),
                end <= v@.len(),
                0 <= k <= ps@.len(),
                goal == pmu_fields(pv, 0, Seq::<(Seq<char>, u64)>::empty()),
                goal == pmu_fields(pv, k as nat, fields_view(fields@)),
            decreases ps.len() - k,
        {
            let (a, b) = ps[k];
            assert(ps@[k as int] == (a, b));
            assert(pv[k as int] == v@.subrange(a as int, b as int));
            let (ta, tb) = trim_bounds(&v, a, b);
            let ghost f = v@.subrange(ta as int, tb as int);
            if ta < tb {
                proof {
                    lemma_index_of_char(f, '=');
                }
                match find_char(&v, ta, tb, '=') {
                    None => {
                        assert(f == trim(pv[k as int]));
                        assert(pmu_fields(pv, k as nat, fields_view(fields@)) == Err::<
                            Seq<(Seq<char>, u64)>,
                            PmuEventError,
                        >(PmuEventError::InvalidField));
                        return Err(PmuEventError::InvalidField);
                    },
                    Some(j) => {
                        let (va, vb) = trim_bounds(&v, j + 1, tb);
                        assert(f.subrange(j + 1 - ta, f.len() as int) =~= v@.subrange(j + 1, tb as int));
                        match field_value_range(&v, va, vb) {
                            None => {
                                assert(f == trim(pv[k as int]));
                                assert(pmu_fields(pv, k as nat, fields_view(fields@)) == Err::<
                                    Seq<(Seq<char>, u64)>,
                                    PmuEventError,
                                >(PmuEventError::InvalidValue));
                                return Err(PmuEventError::InvalidValue);
                            },
                            Some(x) => {
                                let (ka, kb) = trim_bounds(&v, ta, j);
                                assert(f.subrange(0, j - ta) =~= v@.subrange(ta as int, j as int));
                                let mut key = String::new();
                                push_range(&mut key, &v, ka, kb);
                                let ghost before = fields_view(fields@);
                                let ghost kv = key@;
                                fields.push((key, x));
                                assert(fields_view(fields@) =~= before.push((kv, x)));
                            },
                        }
                    },
                }
            }
            k = k + 1;
        }
        let mut pmu_name = String::new();
        push_range(&mut pmu_name, &v, 0, i);
        Ok(PmuEventString { pmu_name, fields })
    }
}


// ------------------------------------------------------------------------------------------
// Legacy PMU statistics
// ------------------------------------------------------------------------------------------

/// Why a line of PMU statistics of an older recording was refused.
#[derive(Debug, Clone, Copy, PartialEq, Eq, Structural)]
pub enum LegacyPmuStatError {
    /// The header has no CPU number.
    MissingCpu,
    /// The header's first word is not a CPU number.
    InvalidCpu,
    /// The header has no statistic name.
    MissingStatName,
    /// There is no numerator part.
    MissingNumerators,
    /// A numerator is not a `u64`.
    InvalidNumerator,
    /// There is no denominator part.
    MissingDenominator,
    /// A denominator is not a `u64`.
    InvalidDenominator,
    /// There is no scale part.
    MissingScale,
    /// The scale is not a `u64`.
    InvalidScale,
}

/// The sum of numbers written as words, from left to right, where a number that would
/// make the sum overflow is left out; none when a word is not a `u64`.
pub open spec fn word_sum(ws: Seq<Seq<char>>) -> Option<u64>
    decreases ws.len(),
{
    if ws.len() == 0 {
        Some(0)
    } else {
        match (word_sum(ws.drop_last()), parse_unsigned(ws.last(), u64::MAX as nat)) {
            (Some(acc), Some(n)) => Some(if acc + n <= u64::MAX {
                (acc + n) as u64
            } else {
                acc
            }),
            _ => None,
        }
    }
}

/// A line "CPU NAME;NUMERATORS;DENOMINATORS;SCALE" of an older recording: the CPU number
/// and the statistic's name (the first two words of the header), the sums of the
/// whitespace-separated numerators and denominators, and the scale.
pub open spec fn legacy_pmu_stat(s: Seq<char>) -> Result<(nat, Seq<char>, u64, u64, u64), LegacyPmuStatError> {
    let items = split(s, ';');
    let header = words(items[0]);
    if header.len() == 0 {
        Err(LegacyPmuStatError::MissingCpu)
    } else {
        match parse_unsigned(header[0], usize::MAX as nat) {
            None => Err(LegacyPmuStatError::InvalidCpu),
            Some(cpu) => if header.len() < 2 {
                Err(LegacyPmuStatError::MissingStatName)
            } else if items.len() < 2 {
                Err(LegacyPmuStatError::MissingNumerators)
            } else {
                match word_sum(words(items[1])) {
                    None => Err(LegacyPmuStatError::InvalidNumerator),
                    Some(nr) => if items.len() < 3 {
                        Err(LegacyPmuStatError::MissingDenominator)
                    } else {
                        match word_sum(words(items[2])) {
                            None => Err(LegacyPmuStatError::InvalidDenominator),
                            Some(dr) => if items.len() < 4 {
                                Err(LegacyPmuStatError::MissingScale)
                            } else {
                                match parse_unsigned(items[3], u64::MAX as nat) {
                                    None => Err(LegacyPmuStatError::InvalidScale),
                                    Some(scale) => Ok((cpu, header[1], nr, dr, scale as u64)),
                                }
                            },
                        }
                    },
                }
            },
        }
    }
}

proof fn lemma_word_sum_none(ws: Seq<Seq<char>>, k: int, j: int)
    requires
        0 <= k <= j <= ws.len(),
        word_sum(ws.take(k)) is None,
    ensures
        word_sum(ws.take(j)) is None,
    decreases j - k,
{
    if j > k {
        lemma_word_sum_none(ws, k, j - 1);
        assert(ws.take(j).drop_last() =~= ws.take(j - 1));
    }
}

/// The sum of the numbers written as words in `v[lo..hi]` (see `word_sum`).
fn sum_words(v: &Vec<char>, lo: usize, hi: usize) -> (r: Option<u64>)
    requires
        lo <= hi <= v@.len(),
    ensures
        r == word_sum(words(v@.subrange(lo as int, hi as int))),
{
    let ws = word_ranges(v, lo, hi);
    let ghost wv = words(v@.subrange(lo as int, hi as int));
    let mut acc: u64 = 0;
    let mut i: usize = 0;
    assert(wv.take(0) =~= Seq::<Seq<char>>::empty());
    while i < ws.len()
        invariant
            wv == words(v@.subrange(lo as int, hi as int)),
            pieces(v@, ws@) == wv,
            ranges_within(ws@, lo as int, hi as int),
            hi <= v@.len(),
            i <= ws@.len(),
            word_sum(wv.take(i as int)) == Some(acc),
        decreases ws.len() - i,
    {
        let (a, b) = ws[i];
        assert(ws@[i as int] == (a, b));
        assert(wv[i as int] == v@.subrange(a as int, b as int));
        assert(wv.take(i + 1).drop_last() =~= wv.take(i as int));
        match parse_unsigned_range(v, a, b, u64::MAX) {
            Some(n) => {
                if acc <= u64::MAX - n {
                    acc = acc + n;
                }
            },
            None => {
                proof {
                    assert(wv.take(i + 1).last() == wv[i as int]);
                    assert(word_sum(wv.take(i + 1)) is None);
                    lemma_word_sum_none(wv, i + 1, wv.len() as int);
                    assert(wv.take(wv.len() as int) =~= wv);
                }
                return None;
            },
        }
        i = i + 1;
    }
    assert(wv.take(ws@.len() as int) =~= wv);
    Some(acc)
}

/// Reads a line of PMU statistics of an older recording (see `legacy_pmu_stat`); the report
/// divides the numerator sum by the denominator sum and multiplies by the scale.
pub fn parse_legacy_raw_pmu_stat(raw_pmu_stat: &str) -> (r: Result<(usize, String, u64, u64, u64), LegacyPmuStatError>)
    ensures
        match (r, legacy_pmu_stat(raw_pmu_stat@)) {
            (Ok(a), Ok(b)) => a.0 as nat == b.0 && a.1@ == b.1 && a.2 == b.2 && a.3 == b.3 && a.4 == b.4,
            (Err(e), Err(f)) => e == f,
            _ => false,
        },
{
    let v = chars_of(raw_pmu_stat);
    let n = v.len();
    let items = split_ranges(&v, 0, n, ';');
    assert(v@.subrange(0, n as int) =~= v@);
    let ghost iv = split(v@, ';');
    assert(items@[0] == items[0]);
    assert(iv[0] == v@.subrange(items[0].0 as int, items[0].1 as int));
    let header = word_ranges(&v, items[0].0, items[0].1);
    let ghost hv = words(iv[0]);
    if header.len() == 0 {
        return Err(LegacyPmuStatError::MissingCpu);
    }
    assert(header@[0] == header[0]);
    assert(hv[0] == v@.subrange(header[0].0 as int, header[0].1 as int));
    let cpu = match parse_unsigned_range(&v, header[0].0, header[0].1, usize::MAX as u64) {
        Some(c) => c as usize,
        None => {
            return Err(LegacyPmuStatError::InvalidCpu);
        },
    };
    if header.len() < 2 {
        return Err(LegacyPmuStatError::MissingStatName);
    }
    assert(header@[1] == header[1]);
    assert(hv[1] == v@.subrange(header[1].0 as int, header[1].1 as int));
    let name = string_of(&v, header[1].0, header[1].1);
    if items.len() < 2 {
        return Err(LegacyPmuStatError::MissingNumerators);
    }
    assert(items@[1] == items[1]);
    assert(iv[1] == v@.subrange(items[1].0 as int, items[1].1 as int));
    let nr = match sum_words(&v, items[1].0, items[1].1) {
        Some(x) => x,
        None => {
            return Err(LegacyPmuStatError::InvalidNumerator);
        },
    };
    if items.len() < 3 {
        return Err(LegacyPmuStatError::MissingDenominator);
    }
    assert(items@[2] == items[2]);
    assert(iv[2] == v@.subrange(items[2].0 as int, items[2].1 as int));
    let dr = match sum_words(&v, items[2].0, items[2].1) {
        Some(x) => x,
        None => {
            return Err(LegacyPmuStatError::InvalidDenominator);
        },
    };
    if items.len() < 4 {
        return Err(LegacyPmuStatError::MissingScale);
    }
    assert(items@[3] == items[3]);
    assert(iv[3] == v@.subrange(items[3].0 as int, items[3].1 as int));
    let scale = match parse_unsigned_range(&v, items[3].0, items[3].1, u64::MAX) {
        Some(x) => x,
        None => {
            return Err(LegacyPmuStatError::InvalidScale);
        },
    };
    Ok((cpu, name, nr, dr, scale))
}


// ------------------------------------------------------------------------------------------
// Collected PMU data
// ------------------------------------------------------------------------------------------

/// The counter values written in some pieces, in order; none when a piece is not a `u64`.
pub open spec fn counter_values(parts: Seq<Seq<char>>) -> Option<Seq<u64>>
    decreases parts.len(),
{
    if parts.len() == 0 {
        Some(Seq::empty())
    } else {
        match (counter_values(parts.drop_last()), parse_unsigned(parts.last(), u64::MAX as nat)) {
            (Some(a), Some(n)) => Some(a.push(n as u64)),
            _ => None,
        }
    }
}

/// The fields of collected PMU data "CPU;IDENTIFIER;V1;...;Vn;ENABLED;RUNNING": the CPU
/// number, the identifier (a metric or an event name), the counter values, and the texts of
/// the times the counters were enabled and running. None when there are fewer than five
/// pieces or the CPU or a counter value is not a number.
pub open spec fn pmu_collected_fields(s: Seq<char>) -> Option<(nat, Seq<char>, Seq<u64>, Seq<char>, Seq<char>)> {
    let parts = split(s, ';');
    if parts.len() < 5 {
        None
    } else {
        match (
            parse_unsigned(parts[0], usize::MAX as nat),
            counter_values(parts.subrange(2, parts.len() - 2)),
        ) {
            (Some(cpu), Some(vals)) => Some(
                (cpu, parts[1], vals, parts[parts.len() - 2], parts[parts.len() - 1]),
            ),
            _ => None,
        }
    }
}

/// The counter values written in decimal, each followed by ';'.
pub open spec fn values_text(vals: Seq<u64>) -> Seq<char>
    decreases vals.len(),
{
    if vals.len() == 0 {
        Seq::empty()
    } else {
        values_text(vals.drop_last()) + decimal(vals.last() as nat) + ";"@
    }
}

/// The text of collected PMU data up to its times: "CPU;IDENTIFIER;V1;...;Vn;".
pub open spec fn pmu_counters_text(cpu: nat, id: Seq<char>, vals: Seq<u64>) -> Seq<char> {
    decimal(cpu) + ";"@ + id + ";"@ + values_text(vals)
}

/// The fields of one line of collected PMU data; the times are left as text.
#[derive(Debug, Clone)]
pub struct PmuCollectedFields {
    pub cpu_id: usize,
    pub identifier: String,
    pub counter_values: Vec<u64>,
    pub time_enabled: String,
    pub time_running: String,
}

/// Reads the fields of a line of collected PMU data (see `pmu_collected_fields`).
pub fn pmu_collected_data_fields(data_string: &str) -> (r: Option<PmuCollectedFields>)
    ensures
        match (r, pmu_collected_fields(data_string@)) {
            (Some(a), Some(b)) => (
                a.cpu_id as nat,
                a.identifier@,
                a.counter_values@,
                a.time_enabled@,
                a.time_running@,
            ) == b,
            (None, None) => true,
            _ => false,
        },
{
    let v = chars_of(data_string);
    let n = v.len();
    let parts = split_ranges(&v, 0, n, ';');
    assert(v@.subrange(0, n as int) =~= v@);
    let ghost pv = split(v@, ';');
    if parts.len() < 5 {
        return None;
    }
    let k = parts.len();
    assert(pieces(v@, parts@) == pv);
    assert(pv.len() == k);
    assert(forall|i: int| 0 <= i < k ==> #[trigger] pv[i] == v@.subrange(parts@[i].0 as int, parts@[i].1 as int));
    assert(parts@[0] == parts[0]);
    let cpu = match parse_unsigned_range(&v, parts[0].0, parts[0].1, usize::MAX as u64) {
        Some(c) => c as usize,
        None => {
            return None;
        },
    };
    let ghost cs = pv.subrange(2, k - 2);
    let mut vals: Vec<u64> = Vec::new();
    let mut i: usize = 2;
    assert(cs.take(0) =~= Seq::<Seq<char>>::empty());
    while i < k - 2
        invariant
            pv == split(v@, ';'),
            v@ == data_string@,
            parts@.len() == k,
            pv.len() == k,
            k >= 5,
            forall|j: int| 0 <= j < k ==> #[trigger] pv[j] == v@.subrange(parts@[j].0 as int, parts@[j].1 as int),
            ranges_within(parts@, 0, n as int),
            n == v@.len(),
            cs == pv.subrange(2, k - 2),
            2 <= i <= k - 2,
            counter_values(cs.take(i - 2)) == Some(vals@),
        decreases k - 2 - i,
    {
        assert(cs.take(i - 1).drop_last() =~= cs.take(i - 2));
        assert(cs.take(i - 1).last() == pv[i as int]);
        match parse_unsigned_range(&v, parts[i].0, parts[i].1, u64::MAX) {
            Some(x) => {
                vals.push(x);
            },
            None => {
                proof {
                    assert(parse_unsigned(pv[i as int], u64::MAX as nat) is None);
                    assert(counter_values(cs.take(i - 1)) is None);
                    lemma_counter_values_none(cs, i - 1, cs.len() as int);
                    assert(cs.take(cs.len() as int) =~= cs);
                }
                return None;
            },
        }
        i = i + 1;
    }
    assert(cs.take(cs.len() as int) =~= cs);
    assert(parts@[1] == parts[1]);
    assert(parts@[k - 2] == parts[k - 2]);
    assert(parts@[k - 1] == parts[k - 1]);
    Some(
        PmuCollectedFields {
            cpu_id: cpu,
            identifier: string_of(&v, parts[1].0, parts[1].1),
            counter_values: vals,
            time_enabled: string_of(&v, parts[k - 2].0, parts[k - 2].1),
            time_running: string_of(&v, parts[k - 1].0, parts[k - 1].1),
        },
    )
}

proof fn lemma_counter_values_none(ps: Seq<Seq<char>>, k: int, j: int)
    requires
        0 <= k <= j <= ps.len(),
        counter_values(ps.take(k)) is None,
    ensures
        counter_values(ps.take(j)) is None,
    decreases j - k,
{
    if j > k {
        lemma_counter_values_none(ps, k, j - 1);
        assert(ps.take(j).drop_last() =~= ps.take(j - 1));
    }
}

/// Writes collected PMU data up to its times (see `pmu_counters_text`); the times follow,
/// separated by ';'.
pub fn pmu_collected_data_prefix(cpu_id: usize, identifier: &str, counter_values: &Vec<u64>) -> (r: String)
    ensures
        r@ == pmu_counters_text(cpu_id as nat, identifier@, counter_values@),
{
    let mut s = String::new();
    push_decimal(&mut s, cpu_id as u64);
    push_str(&mut s, ";");
    push_str(&mut s, identifier);
    push_str(&mut s, ";");
    let ghost head = s@;
    let mut i: usize = 0;
    assert(counter_values@.take(0) =~= Seq::<u64>::empty());
    assert(s@ =~= head + values_text(counter_values@.take(0)));
    while i < counter_values.len()
        invariant
            i <= counter_values@.len(),
            s@ == head + values_text(counter_values@.take(i as int)),
        decreases counter_values.len() - i,
    {
        assert(counter_values@.take(i + 1).drop_last() =~= counter_values@.take(i as int));
        push_decimal(&mut s, counter_values[i]);
        push_str(&mut s, ";");
        assert(s@ =~= head + values_text(counter_values@.take(i + 1)));
        i = i + 1;
    }
    assert(counter_values@.take(counter_values@.len() as int) =~= counter_values@);
    assert(s@ =~= pmu_counters_text(cpu_id as nat, identifier@, counter_values@));
    s
}

/// A piece without ';' followed by ';' is the first piece of the split.
proof fn lemma_split_first(p: Seq<char>, rest: Seq<char>)
    requires
        forall|i: int| 0 <= i < p.len() ==> p[i] != ';',
    ensures
        split(p + ";"@ + rest, ';') == seq![p] + split(rest, ';'),
{
    reveal_strlit(";");
    let s = p + ";"@;
    lemma_split_without(p, ';');
    assert(s.drop_last() =~= p);
    assert(split(s, ';') == split(p, ';').push(Seq::<char>::empty()));
    lemma_split_append(s, rest, ';');
    assert(split(s, ';').drop_last() =~= seq![p]);
}

proof fn lemma_decimal_no_separator(n: nat)
    ensures
        forall|i: int| 0 <= i < decimal(n).len() ==> decimal(n)[i] != ';',
{
    lemma_decimal_digits(n);
    assert forall|i: int| 0 <= i < decimal(n).len() implies decimal(n)[i] != ';' by {
        assert(is_digit(decimal(n)[i]));
    }
}

proof fn lemma_split_values(vals: Seq<u64>, rest: Seq<char>)
    ensures
        split(values_text(vals) + rest, ';') == vals.map_values(|x: u64| decimal(x as nat)) + split(rest, ';'),
    decreases vals.len(),
{
    if vals.len() == 0 {
        assert(values_text(vals) + rest =~= rest);
        assert(vals.map_values(|x: u64| decimal(x as nat)) + split(rest, ';') =~= split(rest, ';'));
    } else {
        let d = decimal(vals.last() as nat);
        let dl = vals.drop_last();
        lemma_decimal_no_separator(vals.last() as nat);
        lemma_split_first(d, rest);
        lemma_split_values(dl, d + ";"@ + rest);
        assert(values_text(vals) + rest =~= values_text(dl) + (d + ";"@ + rest));
        assert(vals.map_values(|x: u64| decimal(x as nat)) =~= dl.map_values(|x: u64| decimal(x as nat)).push(d));
        assert(vals.map_values(|x: u64| decimal(x as nat)) + split(rest, ';') =~= dl.map_values(
            |x: u64| decimal(x as nat),
        ) + (seq![d] + split(rest, ';')));
    }
}

proof fn lemma_counter_values_decimal(vals: Seq<u64>)
    ensures
        counter_values(vals.map_values(|x: u64| decimal(x as nat))) == Some(vals),
    decreases vals.len(),
{
    if vals.len() > 0 {
        let m = vals.map_values(|x: u64| decimal(x as nat));
        lemma_counter_values_decimal(vals.drop_last());
        assert(m.drop_last() =~= vals.drop_last().map_values(|x: u64| decimal(x as nat)));
        lemma_parse_decimal(vals.last() as nat, u64::MAX as nat);
        assert(vals.drop_last().push(vals.last()) =~= vals);
    }
}

/// Writing collected PMU data and reading it back gives its fields again, where the
/// identifier and the texts of the times hold no ';' and there is a counter value.
pub proof fn lemma_pmu_collected_roundtrip(
    cpu: usize,
    id: Seq<char>,
    vals: Seq<u64>,
    enabled: Seq<char>,
    running: Seq<char>,
)
    requires
        vals.len() >= 1,
        forall|i: int| 0 <= i < id.len() ==> id[i] != ';',
        forall|i: int| 0 <= i < enabled.len() ==> enabled[i] != ';',
        forall|i: int| 0 <= i < running.len() ==> running[i] != ';',
    ensures
        pmu_collected_fields(pmu_counters_text(cpu as nat, id, vals) + enabled + ";"@ + running) == Some(
            (cpu as nat, id, vals, enabled, running),
        ),
{
    let dc = decimal(cpu as nat);
    let tail = enabled + ";"@ + running;
    let whole = pmu_counters_text(cpu as nat, id, vals) + tail;
    let m = vals.map_values(|x: u64| decimal(x as nat));
    lemma_decimal_no_separator(cpu as nat);
    assert(whole =~= dc + ";"@ + (id + ";"@ + (values_text(vals) + tail)));
    lemma_split_first(dc, id + ";"@ + (values_text(vals) + tail));
    lemma_split_first(id, values_text(vals) + tail);
    lemma_split_values(vals, tail);
    lemma_split_first(enabled, running);
    lemma_split_without(running, ';');
    let parts = split(whole, ';');
    assert(pmu_counters_text(cpu as nat, id, vals) + enabled + ";"@ + running =~= whole);
    assert(split(tail, ';') =~= seq![enabled, running]);
    assert(split(values_text(vals) + tail, ';') == m + seq![enabled, running]);
    assert(split(whole, ';') == seq![dc] + (seq![id] + (m + seq![enabled, running])));
    assert(parts =~= seq![dc, id] + m + seq![enabled, running]);
    assert(parts.len() == m.len() + 4);
    assert(parts.subrange(2, parts.len() - 2) =~= m);
    assert(parts[0] == dc);
    assert(parts[1] == id);
    assert(parts[parts.len() - 2] == enabled);
    assert(parts[parts.len() - 1] == running);
    lemma_parse_decimal(cpu as nat, usize::MAX as nat);
    lemma_counter_values_decimal(vals);
}


// ------------------------------------------------------------------------------------------
// Collection plan
// ------------------------------------------------------------------------------------------

/// The descriptors that collecting PMU counters needs: a margin of 50, and on every CPU one
/// per counter and one per counter group.
pub fn required_fds(num_cpus: usize, counters_per_cpu: usize, groups_per_cpu: usize) -> (r: usize)
    requires
        counters_per_cpu + groups_per_cpu <= usize::MAX,
        50 + num_cpus * (counters_per_cpu + groups_per_cpu) <= usize::MAX,
    ensures
        r == 50 + num_cpus * (counters_per_cpu + groups_per_cpu),
{
    let per_cpu = counters_per_cpu + groups_per_cpu;
    assert(num_cpus * per_cpu >= 0) by (nonlinear_arith)
        requires
            num_cpus >= 0,
            per_cpu >= 0,
    ;
    let all = num_cpus * per_cpu;
    50 + all
}

/// The largest number of PMU counters probed on one CPU.
pub const PMU_COUNTER_LIMIT_UPPER_BOUND: usize = 16;

/// The smallest number of PMU counters, taken as available without probing.
pub const PMU_COUNTER_LIMIT_LOWER_BOUND: usize = 1;

/// The outcome of a binary search over [low, high] that probes the middle count `mid`
/// (rounded up) and goes on above it when `fits(mid)`, below it otherwise.
pub open spec fn search_limit(fits: spec_fn(int) -> bool, low: int, high: int) -> int
    decreases high - low,
{
    if low >= high {
        low
    } else {
        let mid = (low + high + 1) / 2;
        if fits(mid) {
            search_limit(fits, mid, high)
        } else {
            search_limit(fits, low, mid - 1)
        }
    }
}

/// The search for the number of PMU registers of a CPU: the counts in [low, high] are
/// still possible. A group of `mid` counters is probed; it fits when it ran all the time it
/// was enabled.
#[derive(Debug, Clone, Copy)]
pub struct CounterLimitSearch {
    pub low: usize,
    pub high: usize,
}

impl CounterLimitSearch {
    /// The search at its start: every count from the lower to the upper bound.
    pub fn new() -> (r: Self)
        ensures
            r.low == PMU_COUNTER_LIMIT_LOWER_BOUND,
            r.high == PMU_COUNTER_LIMIT_UPPER_BOUND,
    {
        CounterLimitSearch { low: PMU_COUNTER_LIMIT_LOWER_BOUND, high: PMU_COUNTER_LIMIT_UPPER_BOUND }
    }

    /// The number of counters to probe next, none when the search is over.
    pub fn next_probe(&self) -> (r: Option<usize>)
        requires
            self.high <= PMU_COUNTER_LIMIT_UPPER_BOUND,
        ensures
            r == (if self.low < self.high {
                Some(((self.low + self.high + 1) / 2) as usize)
            } else {
                None::<usize>
            }),
    {
        if self.low < self.high {
            Some((self.low + self.high + 1) / 2)
        } else {
            None
        }
    }

    /// Takes in whether a group of `size` counters (the probe asked for) fits: the search
    /// goes on from `size` up if it does, below `size` if not. The outcome of the whole
    /// search is unchanged for every fitting rule that gives this answer.
    pub fn record(&mut self, size: usize, fits: bool)
        requires
            old(self).low < old(self).high <= PMU_COUNTER_LIMIT_UPPER_BOUND,
            size == (old(self).low + old(self).high + 1) / 2,
        ensures
            fits ==> final(self).low == size && final(self).high == old(self).high,
            !fits ==> final(self).low == old(self).low && final(self).high == size - 1,
            forall|f: spec_fn(int) -> bool|
                f(size as int) == fits ==> #[trigger] search_limit(f, final(self).low as int, final(self).high as int)
                    == search_limit(f, old(self).low as int, old(self).high as int),
    {
        if fits {
            self.low = size;
        } else {
            self.high = size - 1;
        }
    }

    /// The number of registers found: the lowest count still possible.
    pub fn limit(&self) -> (r: usize)
        ensures
            r == self.low,
    {
        self.low
    }
}

/// Where fitting is monotone (a group that fits still fits with fewer counters), the
/// search gives the largest count from `low` to `high` that fits, when the search starts
/// from a count that fits (or the lower bound) and no count above `high` fits.
pub proof fn lemma_search_limit(fits: spec_fn(int) -> bool, low: int, high: int)
    requires
        PMU_COUNTER_LIMIT_LOWER_BOUND <= low <= high <= PMU_COUNTER_LIMIT_UPPER_BOUND,
        forall|a: int, b: int|
            PMU_COUNTER_LIMIT_LOWER_BOUND <= a <= b <= PMU_COUNTER_LIMIT_UPPER_BOUND && #[trigger] fits(b) ==> #[trigger] fits(a),
        low == PMU_COUNTER_LIMIT_LOWER_BOUND || fits(low),
        forall|n: int| high < n <= PMU_COUNTER_LIMIT_UPPER_BOUND ==> !#[trigger] fits(n),
    ensures
        low <= search_limit(fits, low, high) <= high,
        search_limit(fits, low, high) == PMU_COUNTER_LIMIT_LOWER_BOUND || fits(search_limit(fits, low, high)),
        forall|n: int| search_limit(fits, low, high) < n <= PMU_COUNTER_LIMIT_UPPER_BOUND ==> !#[trigger] fits(n),
    decreases high - low,
{
    if low < high {
        let mid = (low + high + 1) / 2;
        if fits(mid) {
            lemma_search_limit(fits, mid, high);
        } else {
            assert forall|n: int| mid - 1 < n <= PMU_COUNTER_LIMIT_UPPER_BOUND implies !#[trigger] fits(n) by {
                if n <= high && fits(n) {
                    assert(fits(mid));
                }
            }
            lemma_search_limit(fits, low, mid - 1);
        }
    }
}

/// The number of PMU registers that the whole search finds, where fitting is monotone: the
/// largest count up to the upper bound that fits, or the lower bound when none above it does.
pub proof fn lemma_counter_limit_search(fits: spec_fn(int) -> bool)
    requires
        forall|a: int, b: int|
            PMU_COUNTER_LIMIT_LOWER_BOUND <= a <= b <= PMU_COUNTER_LIMIT_UPPER_BOUND && #[trigger] fits(b) ==> #[trigger] fits(a),
    ensures
        ({
            let r = search_limit(fits, PMU_COUNTER_LIMIT_LOWER_BOUND as int, PMU_COUNTER_LIMIT_UPPER_BOUND as int);
            &&& PMU_COUNTER_LIMIT_LOWER_BOUND <= r <= PMU_COUNTER_LIMIT_UPPER_BOUND
            &&& (r == PMU_COUNTER_LIMIT_LOWER_BOUND || fits(r))
            &&& forall|n: int| r < n <= PMU_COUNTER_LIMIT_UPPER_BOUND ==> !#[trigger] fits(n)
        }),
{
    lemma_search_limit(fits, PMU_COUNTER_LIMIT_LOWER_BOUND as int, PMU_COUNTER_LIMIT_UPPER_BOUND as int);
}

} // verus!

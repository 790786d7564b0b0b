//! Network statistics: the counters of /proc/net/netstat, which come as pairs of lines, a
//! line of names and a line of values, each starting with the same prefix.
use crate::text::{lines, lines_of, parse_unsigned, strs_view, words, words_of, push_str, parse_unsigned_range, chars_of};
use vstd::prelude::*;

verus! {

/// The data type of network statistics.
#[derive(Debug, Clone)]
pub struct Netstat;

impl Netstat {
    pub fn new() -> Self {
        Netstat
    }
}

/// Why the text of /proc/net/netstat was refused.
#[derive(Debug, Clone, Copy, PartialEq, Eq, Structural)]
pub enum NetstatError {
    /// A line of names is empty.
    MissingPrefix,
    /// A line of values has more values than its line of names has names.
    MissingName,
    /// A value is not a `u64`.
    InvalidValue,
    /// A line of names has more names than its line of values has values.
    ExcessiveName,
}

/// The counters of one pair of lines: each value (after the prefix of the values line)
/// with the name at the same place (after the prefix of the names line), named by the
/// prefix followed by the name.
pub open spec fn netstat_pair(names: Seq<Seq<char>>, values: Seq<Seq<char>>) -> Result<Seq<(Seq<char>, u64)>, NetstatError> {
    if names.len() == 0 {
        Err(NetstatError::MissingPrefix)
    } else {
        let vs = if values.len() == 0 {
            values
        } else {
            values.drop_first()
        };
        netstat_values(names[0], names.drop_first(), vs, 0, Seq::<(Seq<char>, u64)>::empty())
    }
}

/// The counters from the `k`-th value on, after the counters `acc` of the values before it.
pub open spec fn netstat_values(
    prefix: Seq<char>,
    names: Seq<Seq<char>>,
    values: Seq<Seq<char>>,
    k: nat,
    acc: Seq<(Seq<char>, u64)>,
) -> Result<Seq<(Seq<char>, u64)>, NetstatError>
    decreases values.len() - k,
{
    if k >= values.len() {
        if k < names.len() {
            Err(NetstatError::ExcessiveName)
        } else {
            Ok(acc)
        }
    } else if k >= names.len() {
        Err(NetstatError::MissingName)
    } else {
        match parse_unsigned(values[k as int], u64::MAX as nat) {
            None => Err(NetstatError::InvalidValue),
            Some(v) => netstat_values(
                prefix,
                names,
                values,
                k + 1,
                acc.push((prefix + names[k as int], v as u64)),
            ),
        }
    }
}

/// The counters of the text from its `k`-th line on, pair of lines after pair of lines
/// (an odd last line is ignored), after the counters `acc` of the lines before; the first
/// refused pair refuses the whole text.
pub open spec fn netstat_lines(ls: Seq<Seq<char>>, k: nat, acc: Seq<(Seq<char>, u64)>) -> Result<
    Seq<(Seq<char>, u64)>,
    NetstatError,
>
    decreases ls.len() - k,
{
    if k + 1 >= ls.len() {
        Ok(acc)
    } else {
        match netstat_pair(words(ls[k as int]), words(ls[(k + 1) as int])) {
            Err(e) => Err(e),
            Ok(pair) => netstat_lines(ls, k + 2, acc + pair),
        }
    }
}

/// The counters of the text of /proc/net/netstat, in order.
pub open spec fn netstat_counters(text: Seq<char>) -> Result<Seq<(Seq<char>, u64)>, NetstatError> {
    netstat_lines(lines(text), 0, Seq::<(Seq<char>, u64)>::empty())
}

/// Reading the values from the `k`-th on succeeds only when the names and the values are
/// as many, and then adds, after the counters already read, each value with the name at its
/// place (after the prefix).
pub proof fn lemma_netstat_values(
    prefix: Seq<char>,
    names: Seq<Seq<char>>,
    values: Seq<Seq<char>>,
    k: nat,
    acc: Seq<(Seq<char>, u64)>,
)
    requires
        k <= values.len(),
        k <= names.len(),
    ensures
        netstat_values(prefix, names, values, k, acc) matches Ok(c) ==> {
            &&& names.len() == values.len()
            &&& c.len() == acc.len() + values.len() - k
            &&& forall|j: int| 0 <= j < acc.len() ==> #[trigger] c[j] == acc[j]
            &&& forall|j: int|
                k <= j < values.len() ==> #[trigger] c[acc.len() + j - k] == (
                    prefix + names[j],
                    parse_unsigned(values[j], u64::MAX as nat).unwrap() as u64,
                ) && parse_unsigned(values[j], u64::MAX as nat) is Some
        },
    decreases values.len() - k,
{
    if k < values.len() && k < names.len() {
        match parse_unsigned(values[k as int], u64::MAX as nat) {
            None => {},
            Some(v) => {
                let acc2 = acc.push((prefix + names[k as int], v as u64));
                lemma_netstat_values(prefix, names, values, k + 1, acc2);
                match netstat_values(prefix, names, values, k, acc) {
                    Ok(c) => {
                        assert forall|j: int| 0 <= j < acc.len() implies #[trigger] c[j] == acc[j] by {
                            assert(c[j] == acc2[j]);
                        }
                        assert forall|j: int| k <= j < values.len() implies #[trigger] c[acc.len() + j
                            - k] == (
                            prefix + names[j],
                            parse_unsigned(values[j], u64::MAX as nat).unwrap() as u64,
                        ) && parse_unsigned(values[j], u64::MAX as nat) is Some by {
                            if j == k {
                                assert(c[acc.len() as int] == acc2[acc.len() as int]);
                            } else {
                                assert(c[acc2.len() + j - (k + 1)] == c[acc.len() + j - k]);
                            }
                        }
                    },
                    Err(_) => {},
                }
            },
        }
    }
}

/// A pair of lines "<Prefix>: <name> <name> ..." and "<Prefix>: <value> <value> ..." is read
/// only when it has as many names as values, all of them `u64`s, and then gives, in order,
/// each value under the prefix followed by the name at the same place (nothing for a lone
/// prefix over an empty line).
pub proof fn lemma_netstat_pair(names: Seq<Seq<char>>, values: Seq<Seq<char>>)
    ensures
        netstat_pair(names, values) matches Ok(c) ==> {
            &&& names.len() >= 1
            &&& values.len() == 0 ==> names.len() == 1 && c.len() == 0
            &&& values.len() >= 1 ==> names.len() == values.len()
            &&& c.len() == names.len() - 1
            &&& forall|j: int|
                0 <= j < c.len() ==> #[trigger] c[j] == (
                    names[0] + names[j + 1],
                    parse_unsigned(values[j + 1], u64::MAX as nat).unwrap() as u64,
                )
        },
{
    if names.len() > 0 {
        let vs = if values.len() == 0 {
            values
        } else {
            values.drop_first()
        };
        lemma_netstat_values(names[0], names.drop_first(), vs, 0, Seq::<(Seq<char>, u64)>::empty());
        match netstat_pair(names, values) {
            Ok(c) => {
                assert forall|j: int| 0 <= j < c.len() implies #[trigger] c[j] == (
                    names[0] + names[j + 1],
                    parse_unsigned(values[j + 1], u64::MAX as nat).unwrap() as u64,
                ) by {
                    assert(c[0 + j - 0] == c[j]);
                    assert(names.drop_first()[j] == names[j + 1]);
                    assert(vs[j] == values[j + 1]);
                }
            },
            Err(_) => {},
        }
    }
}

pub open spec fn counters_view(v: Seq<(String, u64)>) -> Seq<(Seq<char>, u64)> {
    v.map_values(|e: (String, u64)| (e.0@, e.1))
}

pub open spec fn same_result(
    r: Result<Vec<(String, u64)>, NetstatError>,
    s: Result<Seq<(Seq<char>, u64)>, NetstatError>,
) -> bool {
    match (r, s) {
        (Ok(a), Ok(b)) => counters_view(a@) == b,
        (Err(e), Err(f)) => e == f,
        _ => false,
    }
}

fn parse_pair(names: &Vec<String>, values: &Vec<String>) -> (r: Result<Vec<(String, u64)>, NetstatError>)
    ensures
        same_result(r, netstat_pair(strs_view(names@), strs_view(values@))),
{
    let ghost nv = strs_view(names@);
    let ghost vv = strs_view(values@);
    if names.len() == 0 {
        return Err(NetstatError::MissingPrefix);
    }
    let ghost ns = nv.drop_first();
    let ghost vs = if vv.len() == 0 {
        vv
    } else {
        vv.drop_first()
    };
    let ghost goal = netstat_pair(nv, vv);
    let start: usize = if values.len() == 0 {
        0
    } else {
        1
    };
    let prefix = &names[0];
    let mut out: Vec<(String, u64)> = Vec::new();
    let mut k: usize = 0;
    assert(counters_view(out@) =~= Seq::<(Seq<char>, u64)>::empty());
    while k + start < values.len()
        invariant
            nv == strs_view(names@),
            vv == strs_view(values@),
            names@.len() > 0,
            prefix@ == nv[0],
            ns == nv.drop_first(),
            start == (if values@.len() == 0 {
                0usize
            } else {
                1usize
            }),
            vs == (if vv.len() == 0 {
                vv
            } else {
                vv.drop_first()
            }),
            vs.len() == values@.len() - start,
            k + start <= values@.len(),
            goal == netstat_pair(nv, vv),
            goal == netstat_values(nv[0], ns, vs, k as nat, counters_view(out@)),
        decreases values.len() - k - start,
    {
        if k + 1 >= names.len() {
            return Err(NetstatError::MissingName);
        }
        assert(vs[k as int] == values@[(k + start) as int]@);
        assert(ns[k as int] == names@[k + 1]@);
        let v = chars_of(values[k + start].as_str());
        assert(v@.subrange(0, v@.len() as int) =~= v@);
        let x = match parse_unsigned_range(&v, 0, v.len(), u64::MAX) {
            Some(x) => x,
            None => {
                return Err(NetstatError::InvalidValue);
            },
        };
        let mut name = String::new();
        push_str(&mut name, prefix.as_str());
        push_str(&mut name, names[k + 1].as_str());
        let ghost before = counters_view(out@);
        out.push((name, x));
        assert(counters_view(out@) =~= before.push((nv[0] + ns[k as int], x)));
        k = k + 1;
    }
    if k + 1 < names.len() {
        return Err(NetstatError::ExcessiveName);
    }
    Ok(out)
}

/// Reads the counters of the text of /proc/net/netstat, in order.
pub fn parse_raw_netstat_data(raw_netstat_data: &String) -> (r: Result<Vec<(String, u64)>, NetstatError>)
    ensures
        same_result(r, netstat_counters(raw_netstat_data@)),
{
    let ls = lines_of(raw_netstat_data.as_str());
    let ghost lv = lines(raw_netstat_data@);
    let ghost goal = netstat_counters(raw_netstat_data@);
    let mut out: Vec<(String, u64)> = Vec::new();
    let mut k: usize = 0;
    assert(counters_view(out@) =~= Seq::<(Seq<char>, u64)>::empty());
    while k < ls.len() && ls.len() - k > 1
        invariant
            strs_view(ls@) == lv,
            k <= ls@.len(),
            goal == netstat_counters(raw_netstat_data@),
            lv == lines(raw_netstat_data@),
            goal == netstat_lines(lv, k as nat, counters_view(out@)),
        decreases ls.len() - k,
    {
        let names = words_of(ls[k].as_str());
        let values = words_of(ls[k + 1].as_str());
        assert(lv[k as int] == ls@[k as int]@ && lv[k + 1] == ls@[k + 1]@);
        match parse_pair(&names, &values) {
            Err(e) => {
                return Err(e);
            },
            Ok(pairs) => {
                let ghost before = counters_view(out@);
                let ghost first = counters_view(pairs@);
                let mut j: usize = 0;
                while j < pairs.len()
                    invariant
                        j <= pairs@.len(),
                        first == counters_view(pairs@),
                        counters_view(out@) == before + first.take(j as int),
                    decreases pairs.len() - j,
                {
                    let (n, x) = &pairs[j];
                    let ghost b2 = counters_view(out@);
                    out.push((n.clone(), *x));
                    assert(counters_view(out@) =~= b2.push((n@, *x)));
                    assert(first.take(j + 1) =~= first.take(j as int).push(first[j as int]));
                    j = j + 1;
                }
                assert(first.take(pairs@.len() as int) =~= first);
            },
        }
        k = k + 2;
    }
    Ok(out)
}

} // verus!

//! Interrupts: the lines of /proc/interrupts, each an interrupt with its count on every
//! CPU and a description, and the metric under which each is shown.
use crate::data::meminfo::join;
use crate::text::{
    all_digits, chars_of, decimal, is_digit, lemma_parse_decimal, unsigned_digits, lines, lines_of, parse_unsigned, parse_unsigned_range, push_str, str_eq, strs_view,
    trim_end_char, trim_end_matches_char, words, words_of,
};
use vstd::prelude::*;

verus! {

/// The data type of interrupts.
#[derive(Debug, Clone)]
pub struct InterruptData;

impl InterruptData {
    pub fn new() -> Self {
        InterruptData
    }
}

/// What `str::to_uppercase` gives for a text (Unicode's uppercase mapping).
pub uninterp spec fn spec_to_uppercase(s: Seq<char>) -> Seq<char>;

/// `str::to_uppercase`.
#[verifier::external_body]
fn to_uppercase(s: &str) -> (r: String)
    ensures
        r@ == spec_to_uppercase(s@),
{
    s.to_uppercase()
}

/// One interrupt of /proc/interrupts.
#[derive(Debug, Clone)]
pub struct Interrupt {
    pub interrupt_name: String,
    pub interrupt_info: String,
    pub per_cpu_values: Vec<u64>,
    /// The single count of an interrupt that is not counted per CPU.
    pub value: Option<u64>,
}

/// The interrupts MIS and ERR, which have one count rather than one per CPU.
pub open spec fn is_mis_err(name: Seq<char>) -> bool {
    spec_to_uppercase(name) == "MIS"@ || spec_to_uppercase(name) == "ERR"@
}

/// Whether the interrupt is MIS or ERR, whatever the case of its name.
pub fn is_interrupt_name_mis_err(interrupt_name: &String) -> (r: bool)
    ensures
        r == is_mis_err(interrupt_name@),
{
    let upper = to_uppercase(interrupt_name.as_str());
    str_eq(upper.as_str(), "MIS") || str_eq(upper.as_str(), "ERR")
}

/// The counts among the words that are `u64`s, in order.
pub open spec fn counts_of(ws: Seq<Seq<char>>) -> Seq<u64>
    decreases ws.len(),
{
    if ws.len() == 0 {
        Seq::<u64>::empty()
    } else {
        let c = counts_of(ws.drop_last());
        match parse_unsigned(ws.last(), u64::MAX as nat) {
            Some(n) => c.push(n as u64),
            None => c,
        }
    }
}

/// The view of an interrupt: (name, info, per-CPU counts, single count).
pub type InterruptView = (Seq<char>, Seq<char>, Seq<u64>, Option<u64>);

pub open spec fn interrupt_view(i: Interrupt) -> InterruptView {
    (i.interrupt_name@, i.interrupt_info@, i.per_cpu_values@, i.value)
}

/// The interrupt of a line of /proc/interrupts with `num_cpus` CPU columns: the first word
/// without its trailing colons names it; the next (up to) `num_cpus` words are its counts,
/// of which those that are `u64`s are kept; the remaining words, joined by spaces, describe
/// it. For MIS and ERR the first kept count is the single count. An empty line has none.
pub open spec fn interrupt_of_line(line: Seq<char>, num_cpus: nat) -> Option<InterruptView> {
    let w = words(line);
    if w.len() == 0 {
        None
    } else {
        let name = trim_end_char(w[0], ':');
        let taken = if w.len() - 1 < num_cpus {
            (w.len() - 1) as nat
        } else {
            num_cpus
        };
        let counts = counts_of(w.subrange(1, (1 + taken) as int));
        let info = join(w.subrange((1 + taken) as int, w.len() as int), " "@);
        if is_mis_err(name) {
            Some(
                (
                    name,
                    info,
                    Seq::<u64>::empty(),
                    if counts.len() > 0 {
                        Some(counts[0])
                    } else {
                        None
                    },
                ),
            )
        } else {
            Some((name, info, counts, None))
        }
    }
}

/// The interrupts of the lines after the first (the header of CPU columns).
pub open spec fn interrupts_of_lines(ls: Seq<Seq<char>>, num_cpus: nat) -> Seq<InterruptView>
    decreases ls.len(),
{
    if ls.len() == 0 {
        Seq::<InterruptView>::empty()
    } else {
        let before = interrupts_of_lines(ls.drop_last(), num_cpus);
        match interrupt_of_line(ls.last(), num_cpus) {
            Some(i) => before.push(i),
            None => before,
        }
    }
}

/// The interrupts of two runs of lines one after the other are the interrupts of the first
/// followed by those of the second: each line adds its own interrupt, whatever comes before
/// or after it.
pub proof fn lemma_interrupts_of_lines_concat(a: Seq<Seq<char>>, b: Seq<Seq<char>>, num_cpus: nat)
    ensures
        interrupts_of_lines(a + b, num_cpus) == interrupts_of_lines(a, num_cpus) + interrupts_of_lines(
            b,
            num_cpus,
        ),
    decreases b.len(),
{
    if b.len() == 0 {
        assert(a + b =~= a);
        assert(interrupts_of_lines(a, num_cpus) + interrupts_of_lines(b, num_cpus) =~= interrupts_of_lines(
            a,
            num_cpus,
        ));
    } else {
        lemma_interrupts_of_lines_concat(a, b.drop_last(), num_cpus);
        assert((a + b).drop_last() =~= a + b.drop_last());
        assert((a + b).last() == b.last());
        match interrupt_of_line(b.last(), num_cpus) {
            Some(i) => {
                assert(interrupts_of_lines(a, num_cpus) + interrupts_of_lines(b, num_cpus) =~= (
                interrupts_of_lines(a, num_cpus) + interrupts_of_lines(b.drop_last(), num_cpus)).push(i));
            },
            None => {},
        }
    }
}

/// Every line with a word is one interrupt, named by its first word without the trailing
/// colons, with at most one count per CPU column; an empty line is none.
pub proof fn lemma_interrupt_of_line(line: Seq<char>, num_cpus: nat)
    ensures
        (interrupt_of_line(line, num_cpus) is Some) <==> words(line).len() > 0,
        interrupt_of_line(line, num_cpus) matches Some(i) ==> i.0 == trim_end_char(words(line)[0], ':')
            && i.2.len() <= num_cpus,
{
    let w = words(line);
    if w.len() > 0 {
        let taken = if w.len() - 1 < num_cpus {
            (w.len() - 1) as nat
        } else {
            num_cpus
        };
        lemma_counts_of_len(w.subrange(1, (1 + taken) as int));
    }
}

/// The counts among some words are never more than the words.
pub proof fn lemma_counts_of_len(ws: Seq<Seq<char>>)
    ensures
        counts_of(ws).len() <= ws.len(),
    decreases ws.len(),
{
    if ws.len() > 0 {
        lemma_counts_of_len(ws.drop_last());
    }
}

/// The interrupts of the text of /proc/interrupts: the number of CPU columns is the number
/// of words of the first line, and every later line is an interrupt.
pub open spec fn interrupts_of(text: Seq<char>) -> Seq<InterruptView> {
    let ls = lines(text);
    if ls.len() == 0 {
        Seq::<InterruptView>::empty()
    } else {
        interrupts_of_lines(ls.drop_first(), words(ls[0]).len())
    }
}

fn join_words(ws: &Vec<String>, from: usize) -> (r: String)
    requires
        from <= ws@.len(),
    ensures
        r@ == join(strs_view(ws@).subrange(from as int, ws@.len() as int), " "@),
{
    let ghost wv = strs_view(ws@);
    let mut s = String::new();
    let mut k = from;
    assert(wv.subrange(from as int, from as int) =~= Seq::<Seq<char>>::empty());
    while k < ws.len()
        invariant
            wv == strs_view(ws@),
            from <= k <= ws@.len(),
            s@ == join(wv.subrange(from as int, k as int), " "@),
        decreases ws.len() - k,
    {
        let ghost part = wv.subrange(from as int, k + 1);
        assert(part.drop_last() =~= wv.subrange(from as int, k as int));
        assert(part.last() == ws@[k as int]@);
        if k > from {
            push_str(&mut s, " ");
        }
        push_str(&mut s, ws[k].as_str());
        k = k + 1;
    }
    s
}

fn interrupt_of(line: &str, num_cpus: usize) -> (r: Option<Interrupt>)
    ensures
        match r {
            Some(i) => interrupt_of_line(line@, num_cpus as nat) == Some(interrupt_view(i)),
            None => interrupt_of_line(line@, num_cpus as nat) is None,
        },
{
    let w = words_of(line);
    let ghost wv = words(line@);
    if w.len() == 0 {
        return None;
    }
    assert(w@[0]@ == wv[0]);
    let name = trim_end_matches_char(w[0].as_str(), ':');
    let taken: usize = if w.len() - 1 < num_cpus {
        w.len() - 1
    } else {
        num_cpus
    };
    let end = 1 + taken;
    let mut counts: Vec<u64> = Vec::new();
    let mut k: usize = 1;
    assert(wv.subrange(1, 1) =~= Seq::<Seq<char>>::empty());
    while k < end
        invariant
            strs_view(w@) == wv,
            end == 1 + taken,
            1 <= k <= end <= w@.len(),
            counts@ == counts_of(wv.subrange(1, k as int)),
        decreases end - k,
    {
        let ghost part = wv.subrange(1, k + 1);
        assert(part.drop_last() =~= wv.subrange(1, k as int));
        assert(part.last() == w@[k as int]@);
        let v = chars_of(w[k].as_str());
        assert(v@.subrange(0, v@.len() as int) =~= v@);
        match parse_unsigned_range(&v, 0, v.len(), u64::MAX) {
            Some(n) => counts.push(n),
            None => {},
        }
        k = k + 1;
    }
    let info = join_words(&w, end);
    if is_interrupt_name_mis_err(&name) {
        let value = if counts.len() > 0 {
            Some(counts[0])
        } else {
            None
        };
        Some(
            Interrupt {
                interrupt_name: name,
                interrupt_info: info,
                per_cpu_values: Vec::new(),
                value,
            },
        )
    } else {
        Some(Interrupt { interrupt_name: name, interrupt_info: info, per_cpu_values: counts, value: None })
    }
}

/// Reads the interrupts of the text of /proc/interrupts.
pub fn parse_raw_interrupt_data(raw_interrupt_data: &String) -> (r: Vec<Interrupt>)
    ensures
        r@.map_values(|i: Interrupt| interrupt_view(i)) == interrupts_of(raw_interrupt_data@),
{
    let ls = lines_of(raw_interrupt_data.as_str());
    let ghost lv = lines(raw_interrupt_data@);
    let mut out: Vec<Interrupt> = Vec::new();
    if ls.len() == 0 {
        assert(out@.map_values(|i: Interrupt| interrupt_view(i)) =~= Seq::<InterruptView>::empty());
        return out;
    }
    let num_cpus = words_of(ls[0].as_str()).len();
    assert(lv[0] == ls@[0]@);
    let ghost rest = lv.drop_first();
    let mut i: usize = 1;
    assert(rest.take(0) =~= Seq::<Seq<char>>::empty());
    assert(out@.map_values(|i: Interrupt| interrupt_view(i)) =~= Seq::<InterruptView>::empty());
    while i < ls.len()
        invariant
            strs_view(ls@) == lv,
            lv.len() > 0,
            rest == lv.drop_first(),
            num_cpus == words(lv[0]).len(),
            1 <= i <= ls@.len(),
            out@.map_values(|i: Interrupt| interrupt_view(i)) == interrupts_of_lines(
                rest.take(i - 1),
                num_cpus as nat,
            ),
        decreases ls.len() - i,
    {
        assert(rest.take(i as int).drop_last() =~= rest.take(i - 1));
        assert(rest.take(i as int).last() == ls@[i as int]@);
        match interrupt_of(ls[i].as_str(), num_cpus) {
            Some(intr) => {
                let ghost before = out@.map_values(|i: Interrupt| interrupt_view(i));
                let ghost iv = interrupt_view(intr);
                out.push(intr);
                assert(out@.map_values(|i: Interrupt| interrupt_view(i)) =~= before.push(iv));
            },
            None => {},
        }
        i = i + 1;
    }
    assert(rest.take(ls@.len() - 1) =~= rest);
    out
}

/// The metric of an interrupt: "(<info>)" for a numbered interrupt, else its name, followed
/// by " (<info>)" when it has a description.
pub open spec fn interrupt_metric_name(name: Seq<char>, info: Seq<char>) -> Seq<char> {
    if parse_unsigned(name, u64::MAX as nat) is Some {
        "("@ + info + ")"@
    } else if info.len() == 0 {
        name
    } else {
        name + " ("@ + info + ")"@
    }
}

/// A numbered interrupt (an IRQ line "<n>:") is shown under its description in
/// parentheses; a named one (such as "NMI" or "LOC", whose name starts with a letter) is
/// shown under its name, followed by its description in parentheses when it has one.
pub proof fn lemma_interrupt_metric_names(n: nat, name: Seq<char>, info: Seq<char>)
    requires
        n <= u64::MAX,
    ensures
        interrupt_metric_name(decimal(n), info) == "("@ + info + ")"@,
        name.len() > 0 && !is_digit(name[0]) && name[0] != '+' ==> interrupt_metric_name(name, info)
            == if info.len() == 0 {
            name
        } else {
            name + " ("@ + info + ")"@
        },
{
    lemma_parse_decimal(n, u64::MAX as nat);
    if name.len() > 0 && !is_digit(name[0]) && name[0] != '+' {
        assert(unsigned_digits(name) == name);
        assert(!all_digits(name));
    }
}

/// The metric under which an interrupt is shown.
pub fn get_interrupt_metric_name(interrupt: &Interrupt) -> (r: String)
    ensures
        r@ == interrupt_metric_name(interrupt.interrupt_name@, interrupt.interrupt_info@),
{
    let v = chars_of(interrupt.interrupt_name.as_str());
    assert(v@.subrange(0, v@.len() as int) =~= v@);
    let mut s = String::new();
    if parse_unsigned_range(&v, 0, v.len(), u64::MAX).is_some() {
        push_str(&mut s, "(");
        push_str(&mut s, interrupt.interrupt_info.as_str());
        push_str(&mut s, ")");
    } else if chars_of(interrupt.interrupt_info.as_str()).len() == 0 {
        push_str(&mut s, interrupt.interrupt_name.as_str());
    } else {
        push_str(&mut s, interrupt.interrupt_name.as_str());
        push_str(&mut s, " (");
        push_str(&mut s, interrupt.interrupt_info.as_str());
        push_str(&mut s, ")");
    }
    s
}

} // verus!

//! The common raw format of time-series data that system pseudo files do not already
//! give in a format of their own:
//!
//! ```text
//! component_name_1:
//! metric_name_1 metric_value_1
//! metric_name_2 metric_value_2
//! component_name_2:
//! metric_name_1 metric_value_1
//! ```
//!
//! `TimeSeriesDataBuilder` writes it and `parse_common_raw_entries` reads it back.
use crate::text::{
    chars_of, is_word, lemma_lines_append, lemma_trim_unchanged, lemma_words_pair,
    line_ranges, lines, pieces, push_range, push_str, ranges_within, split, string_of, strip_cr,
    trim, trim_bounds, word_ranges, words,
};
use vstd::prelude::*;

verus! {

/// Builds raw time-series data in the common raw format.
pub struct TimeSeriesDataBuilder {
    raw_data: String,
}

impl View for TimeSeriesDataBuilder {
    type V = Seq<char>;

    closed spec fn view(&self) -> Seq<char> {
        self.raw_data@
    }
}

/// The text of a component line.
pub open spec fn component_line(component_name: Seq<char>) -> Seq<char> {
    component_name + ":\n"@
}

/// The text of a metric line: the name and the value separated by a space, with
/// surrounding whitespace removed.
pub open spec fn metric_line(metric_name: Seq<char>, metric_value: Seq<char>) -> Seq<char> {
    trim(metric_name + " "@ + metric_value) + "\n"@
}

impl TimeSeriesDataBuilder {
    pub fn new() -> (r: Self)
        ensures
            r@ == Seq::<char>::empty(),
    {
        TimeSeriesDataBuilder { raw_data: String::new() }
    }

    pub fn add_component_line(&mut self, component_name: &String)
        ensures
            final(self)@ == old(self)@ + component_line(component_name@),
    {
        push_str(&mut self.raw_data, component_name.as_str());
        push_str(&mut self.raw_data, ":\n");
        assert(self.raw_data@ =~= old(self)@ + component_line(component_name@));
    }

    pub fn add_metric_line(&mut self, metric_name: &String, metric_value: &String)
        ensures
            final(self)@ == old(self)@ + metric_line(metric_name@, metric_value@),
    {
        let mut line = String::new();
        push_str(&mut line, metric_name.as_str());
        push_str(&mut line, " ");
        push_str(&mut line, metric_value.as_str());
        let v = chars_of(line.as_str());
        let (a, b) = trim_bounds(&v, 0, v.len());
        assert(v@.subrange(0, v@.len() as int) =~= v@);
        push_range(&mut self.raw_data, &v, a, b);
        push_str(&mut self.raw_data, "\n");
        assert(line@ =~= metric_name@ + " "@ + metric_value@);
        assert(self.raw_data@ =~= old(self)@ + metric_line(metric_name@, metric_value@));
    }

    pub fn get_data(self) -> (r: String)
        ensures
            r@ == self@,
    {
        self.raw_data
    }
}

// ------------------------------------------------------------------------------------------
// Reading the common raw format
// ------------------------------------------------------------------------------------------

/// One metric value in the raw data, with the component it was listed under. The value is
/// still text: it is parsed as a number by the caller.
pub struct RawMetricEntry {
    pub metric_name: String,
    pub component_name: String,
    pub value: String,
}

pub open spec fn entry_view(e: RawMetricEntry) -> (Seq<char>, Seq<char>, Seq<char>) {
    (e.metric_name@, e.component_name@, e.value@)
}

/// The effect of one line: a line ending with ':' names the current component (the text
/// before the colon); any other line with at least two words gives an entry whose metric
/// name is the first word and whose value is the second; other lines are ignored.
pub open spec fn raw_state_apply(
    state: (Seq<char>, Seq<(Seq<char>, Seq<char>, Seq<char>)>),
    line: Seq<char>,
) -> (Seq<char>, Seq<(Seq<char>, Seq<char>, Seq<char>)>) {
    if line.len() > 0 && line.last() == ':' {
        (line.drop_last(), state.1)
    } else {
        let w = words(line);
        if w.len() >= 2 {
            (state.0, state.1.push((w[0], state.0, w[1])))
        } else {
            state
        }
    }
}

/// The current component and the entries after reading lines in order; before any
/// component line the current component is empty.
pub open spec fn raw_state(ls: Seq<Seq<char>>) -> (Seq<char>, Seq<(Seq<char>, Seq<char>, Seq<char>)>)
    decreases ls.len(),
{
    if ls.len() == 0 {
        (Seq::empty(), Seq::empty())
    } else {
        raw_state_apply(raw_state(ls.drop_last()), ls.last())
    }
}

/// The entries of raw data in the common raw format, in the order of their lines.
pub open spec fn raw_entries(raw_data: Seq<char>) -> Seq<(Seq<char>, Seq<char>, Seq<char>)> {
    raw_state(lines(raw_data)).1
}

/// Reads the entries of raw data in the common raw format.
pub fn parse_common_raw_entries(raw_data: &str) -> (r: Vec<RawMetricEntry>)
    ensures
        r@.map_values(|e: RawMetricEntry| entry_view(e)) == raw_entries(raw_data@),
{
    let v = chars_of(raw_data);
    assert(v@.subrange(0, v@.len() as int) =~= v@);
    let ls = line_ranges(&v, 0, v.len());
    let ghost lsv = lines(raw_data@);
    let mut out: Vec<RawMetricEntry> = Vec::new();
    let mut comp_lo: usize = 0;
    let mut comp_hi: usize = 0;
    let mut i: usize = 0;
    assert(lsv.take(0) =~= Seq::<Seq<char>>::empty());
    assert(v@.subrange(0, 0) =~= Seq::<char>::empty());
    assert(out@.map_values(|e: RawMetricEntry| entry_view(e)) =~= Seq::<
        (Seq<char>, Seq<char>, Seq<char>),
    >::empty());
    while i < ls.len()
        invariant
            lsv == pieces(v@, ls@),
            ranges_within(ls@, 0, v@.len() as int),
            0 <= i <= ls@.len(),
            comp_lo <= comp_hi <= v@.len(),
            raw_state(lsv.take(i as int)) == (v@.subrange(comp_lo as int, comp_hi as int), out@.map_values(
                |e: RawMetricEntry| entry_view(e),
            )),
        decreases ls.len() - i,
    {
        let (a, b) = ls[i];
        assert(ls@[i as int] == (a, b));
        let ghost line = v@.subrange(a as int, b as int);
        assert(lsv[i as int] == line);
        assert(lsv.take(i + 1).drop_last() =~= lsv.take(i as int));
        assert(lsv.take(i + 1).last() == line);
        if b > a && v[b - 1] == ':' {
            comp_lo = a;
            comp_hi = b - 1;
            assert(line.drop_last() =~= v@.subrange(a as int, b - 1));
        } else {
            let ws = word_ranges(&v, a, b);
            if ws.len() >= 2 {
                let (m0, m1) = ws[0];
                let (v0, v1) = ws[1];
                assert(ws@[0] == (m0, m1) && ws@[1] == (v0, v1));
                let ghost before = out@.map_values(|e: RawMetricEntry| entry_view(e));
                let entry = RawMetricEntry {
                    metric_name: string_of(&v, m0, m1),
                    component_name: string_of(&v, comp_lo, comp_hi),
                    value: string_of(&v, v0, v1),
                };
                out.push(entry);
                assert(out@.map_values(|e: RawMetricEntry| entry_view(e)) =~= before.push(
                    entry_view(entry),
                ));
            }
        }
        i = i + 1;
    }
    assert(lsv.take(ls@.len() as int) =~= lsv);
    out
}

// ------------------------------------------------------------------------------------------
// Writing and reading back
// ------------------------------------------------------------------------------------------

/// A line that the builder writes.
pub enum BuilderLine {
    Component(Seq<char>),
    Metric(Seq<char>, Seq<char>),
}

/// The text that the builder holds after writing `ops` in order.
pub open spec fn builder_text(ops: Seq<BuilderLine>) -> Seq<char>
    decreases ops.len(),
{
    if ops.len() == 0 {
        Seq::empty()
    } else {
        builder_text(ops.drop_last()) + match ops.last() {
            BuilderLine::Component(c) => component_line(c),
            BuilderLine::Metric(m, v) => metric_line(m, v),
        }
    }
}

/// The current component and the entries that `ops` describe: every metric line gives an
/// entry under the component written last before it.
pub open spec fn builder_state(ops: Seq<BuilderLine>) -> (
    Seq<char>,
    Seq<(Seq<char>, Seq<char>, Seq<char>)>,
)
    decreases ops.len(),
{
    if ops.len() == 0 {
        (Seq::empty(), Seq::empty())
    } else {
        let st = builder_state(ops.drop_last());
        match ops.last() {
            BuilderLine::Component(c) => (c, st.1),
            BuilderLine::Metric(m, v) => (st.0, st.1.push((m, st.0, v))),
        }
    }
}

/// Lines that read back as written: a component name without a line feed; a metric name
/// and a value that are non-empty and free of whitespace, the value not ending with ':'.
pub open spec fn is_readable_line(op: BuilderLine) -> bool {
    match op {
        BuilderLine::Component(c) => forall|i: int| 0 <= i < c.len() ==> c[i] != '\n',
        BuilderLine::Metric(m, v) => is_word(m) && is_word(v) && v.last() != ':',
    }
}

proof fn lemma_builder_text_ends(ops: Seq<BuilderLine>)
    ensures
        builder_text(ops).len() == 0 || builder_text(ops).last() == '\n',
    decreases ops.len(),
{
    assert("\n"@ =~= seq!['\n']) by {
        reveal_strlit("\n");
    }
    assert(":\n"@ =~= seq![':', '\n']) by {
        reveal_strlit(":\n");
    }
    if ops.len() > 0 {
        lemma_builder_text_ends(ops.drop_last());
    }
}

/// Reading back what the builder wrote gives the entries that were written, each under
/// the component written last before it, as long as every line is readable.
pub proof fn lemma_builder_roundtrip(ops: Seq<BuilderLine>)
    requires
        forall|i: int| 0 <= i < ops.len() ==> is_readable_line(#[trigger] ops[i]),
    ensures
        raw_state(lines(builder_text(ops))) == builder_state(ops),
        raw_entries(builder_text(ops)) == builder_state(ops).1,
    decreases ops.len(),
{
    assert("\n"@ =~= seq!['\n']) by {
        reveal_strlit("\n");
    }
    assert(":\n"@ =~= seq![':', '\n']) by {
        reveal_strlit(":\n");
    }
    assert(" "@ =~= seq![' ']) by {
        reveal_strlit(" ");
    }
    if ops.len() == 0 {
        assert(split(Seq::<char>::empty(), '\n') =~= seq![Seq::<char>::empty()]);
        assert(lines(Seq::<char>::empty()) =~= Seq::<Seq<char>>::empty());
    } else {
        let prev = ops.drop_last();
        assert forall|i: int| 0 <= i < prev.len() implies is_readable_line(#[trigger] prev[i]) by {
            assert(prev[i] == ops[i]);
        }
        lemma_builder_roundtrip(prev);
        lemma_builder_text_ends(prev);
        let t = builder_text(prev);
        let op = ops.last();
        assert(is_readable_line(ops[ops.len() - 1]));
        let l = match op {
            BuilderLine::Component(c) => c + seq![':'],
            BuilderLine::Metric(m, v) => m + " "@ + v,
        };
        match op {
            BuilderLine::Component(c) => {
                assert(component_line(c) =~= l + "\n"@);
            },
            BuilderLine::Metric(m, v) => {
                lemma_trim_unchanged(l);
                assert(metric_line(m, v) =~= l + "\n"@);
                assert(forall|i: int| 0 <= i < l.len() ==> l[i] != '\n') by {
                    assert forall|i: int| 0 <= i < l.len() implies l[i] != '\n' by {
                        if i < m.len() {
                            assert(l[i] == m[i]);
                        } else if i > m.len() {
                            assert(l[i] == v[i - m.len() - 1]);
                        }
                    }
                }
                lemma_words_pair(m, v);
            },
        }
        assert(builder_text(ops) =~= t + l + "\n"@);
        lemma_lines_append(t, l);
        assert(strip_cr(l) == l);
        let ls = lines(builder_text(ops));
        assert(ls.drop_last() =~= lines(t));
        assert(ls.last() == l);
        match op {
            BuilderLine::Component(c) => {
                assert(l.drop_last() =~= c);
            },
            BuilderLine::Metric(m, v) => {
                assert(l.last() == v.last());
            },
        }
    }
}

} // verus!

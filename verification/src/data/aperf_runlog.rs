//! The run log of a recording: the text of the log, shown line by line in the report.
use crate::data::common::data_formats::TextData;
use crate::text::{chars_of, pieces, ranges_within, split, split_ranges, string_of, trim_end, trim_end_bound};
use vstd::prelude::*;

verus! {

/// The data type of the run log.
#[derive(Debug, Clone)]
pub struct AperfRunlog;

impl AperfRunlog {
    pub fn new() -> Self {
        AperfRunlog
    }
}

/// The lines of the run log as the report shows them. The text is read line by line; a
/// line ended by a line feed loses its trailing whitespace (the line feed included), while a
/// last line without a line feed is kept as it is, and nothing follows a final line feed.
pub open spec fn runlog_lines(text: Seq<char>) -> Seq<Seq<char>> {
    let p = split(text, '\n');
    let body = p.drop_last().map_values(|l: Seq<char>| trim_end(l));
    if p.last().len() == 0 {
        body
    } else {
        body.push(p.last())
    }
}

/// The run log's text as text data, one entry per line.
pub fn runlog_text_data(text: &str) -> (r: TextData)
    ensures
        r.lines@.map_values(|l: String| l@) == runlog_lines(text@),
{
    let v = chars_of(text);
    assert(v@.subrange(0, v@.len() as int) =~= v@);
    let rs = split_ranges(&v, 0, v.len(), '\n');
    let ghost p = split(text@, '\n');
    let mut lines: Vec<String> = Vec::new();
    let n = rs.len() - 1;
    assert(p.len() == rs@.len());
    let mut i: usize = 0;
    while i < n
        invariant
            n + 1 == rs@.len(),
            p == split(text@, '\n'),
            p == pieces(v@, rs@),
            ranges_within(rs@, 0, v@.len() as int),
            0 <= i <= n,
            p.len() == n + 1,
            lines@.len() == i,
            lines@.map_values(|l: String| l@) == p.take(i as int).map_values(
                |l: Seq<char>| trim_end(l),
            ),
        decreases n - i,
    {
        let (a, b) = rs[i];
        assert(rs@[i as int] == (a, b));
        assert(p[i as int] == v@.subrange(a as int, b as int));
        let e = trim_end_bound(&v, a, b);
        let line = string_of(&v, a, e);
        let ghost before = lines@;
        lines.push(line);
        assert(lines@.map_values(|l: String| l@) =~= p.take(i + 1).map_values(
            |l: Seq<char>| trim_end(l),
        )) by {
            assert(lines@ == before.push(line));
            let old_view = before.map_values(|l: String| l@);
            let old_spec = p.take(i as int).map_values(|l: Seq<char>| trim_end(l));
            assert(old_view == old_spec);
            let new_view = lines@.map_values(|l: String| l@);
            let new_spec = p.take(i + 1).map_values(|l: Seq<char>| trim_end(l));
            assert forall|j: int| 0 <= j < i + 1 implies #[trigger] new_view[j] == new_spec[j] by {
                if j < i {
                    assert(old_view[j] == old_spec[j]);
                    assert(p.take(i + 1)[j] == p.take(i as int)[j]);
                } else {
                    assert(p.take(i + 1)[j] == p[i as int]);
                }
            }
        }
        i = i + 1;
    }
    assert(p.take(n as int) =~= p.drop_last());
    let (a, b) = rs[n];
    assert(rs@[n as int] == (a, b));
    assert(p.last() == v@.subrange(a as int, b as int));
    if a < b {
        let ghost before = lines@;
        let last = string_of(&v, a, b);
        lines.push(last);
        assert(lines@.map_values(|l: String| l@) =~= before.map_values(|l: String| l@).push(
            last@,
        ));
    }
    TextData { lines }
}

} // verus!

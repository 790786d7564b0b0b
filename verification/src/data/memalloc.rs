//! Memory allocation: the data points read from /proc/buddyinfo, /proc/pagetypeinfo and
//! /proc/slabinfo, and the names under which their metrics are shown. A point's value is
//! kept as text; the report keeps the points whose value reads as a number.
use crate::text::{
    char_positions, char_positions_of, chars_of, decimal, lines, lines_of, parse_unsigned,
    parse_unsigned_range, push_char, push_decimal, push_range, push_str, range_eq,
    range_starts_with, str_eq, str_starts_with, strs_view, trim_end_char, trim_end_matches_char,
    words, words_of, lemma_lines_append, lemma_parse_decimal, strip_cr, lex_lt, lex_less, lemma_lex_total, lemma_lex_trans,
};
use vstd::prelude::*;

verus! {

/// The data type of memory allocation data.
#[derive(Debug, Clone)]
pub struct MemallocData;

impl MemallocData {
    pub fn new() -> Self {
        MemallocData
    }
}

/// A value of a series of a metric, as text.
#[derive(Debug, Clone)]
pub struct DataPoint {
    pub metric_name: String,
    pub series_name: String,
    pub value: String,
}

pub type PointView = (Seq<char>, Seq<char>, Seq<char>);

pub open spec fn points_view(ps: Seq<DataPoint>) -> Seq<PointView> {
    ps.map_values(|p: DataPoint| (p.metric_name@, p.series_name@, p.value@))
}

// ------------------------------------------------------------------------------------------
// /proc/buddyinfo
// ------------------------------------------------------------------------------------------

/// The points of a line "Node 0, zone Normal <free blocks of order 0> <order 1> ...": the
/// count of each order as metric "buddyinfo_order_<order>" of series
/// "node_<node>_zone_<zone>". Lines with fewer than 5 words have none.
pub open spec fn buddyinfo_line_points(line: Seq<char>) -> Seq<PointView> {
    let w = words(line);
    if w.len() < 5 {
        Seq::<PointView>::empty()
    } else {
        let series = "node_"@ + trim_end_char(w[1], ',') + "_zone_"@ + w[3];
        Seq::new(
            (w.len() - 4) as nat,
            |k: int| ("buddyinfo_order_"@ + decimal(k as nat), series, w[4 + k]),
        )
    }
}

pub open spec fn buddyinfo_points(ls: Seq<Seq<char>>) -> Seq<PointView>
    decreases ls.len(),
{
    if ls.len() == 0 {
        Seq::<PointView>::empty()
    } else {
        buddyinfo_points(ls.drop_last()) + buddyinfo_line_points(ls.last())
    }
}

/// The points of the buddyinfo lines of two texts one after the other are the points of the
/// first followed by those of the second: each line adds its own points, whatever comes
/// before or after it.
pub proof fn lemma_buddyinfo_points_concat(a: Seq<Seq<char>>, b: Seq<Seq<char>>)
    ensures
        buddyinfo_points(a + b) == buddyinfo_points(a) + buddyinfo_points(b),
    decreases b.len(),
{
    if b.len() == 0 {
        assert(a + b =~= a);
        assert(buddyinfo_points(a) + buddyinfo_points(b) =~= buddyinfo_points(a));
    } else {
        lemma_buddyinfo_points_concat(a, b.drop_last());
        assert((a + b).drop_last() =~= a + b.drop_last());
        assert((a + b).last() == b.last());
        assert(buddyinfo_points(a) + buddyinfo_points(b) =~= buddyinfo_points(a) + buddyinfo_points(
            b.drop_last(),
        ) + buddyinfo_line_points(b.last()));
    }
}

/// The points of each line of a buddyinfo text appear in the points of the text, between the
/// points of the lines before it and those of the lines after it.
pub proof fn lemma_buddyinfo_line_among_points(ls: Seq<Seq<char>>, i: int)
    requires
        0 <= i < ls.len(),
    ensures
        buddyinfo_points(ls) == buddyinfo_points(ls.take(i)) + buddyinfo_line_points(ls[i])
            + buddyinfo_points(ls.skip(i + 1)),
{
    assert(ls =~= ls.take(i) + seq![ls[i]] + ls.skip(i + 1));
    lemma_buddyinfo_points_concat(ls.take(i) + seq![ls[i]], ls.skip(i + 1));
    lemma_buddyinfo_points_concat(ls.take(i), seq![ls[i]]);
    let one = seq![ls[i]];
    assert(one.drop_last() =~= Seq::<Seq<char>>::empty());
    assert(one.last() == ls[i]);
    assert(buddyinfo_points(one.drop_last()) =~= Seq::<PointView>::empty());
    assert(buddyinfo_points(one) =~= buddyinfo_line_points(ls[i]));
}

/// Appending a line of /proc/buddyinfo to a text (empty or ending with a line feed) appends
/// the points of that line, and only those, to the points of the text.
pub proof fn lemma_buddyinfo_text_append(t: Seq<char>, l: Seq<char>)
    requires
        t.len() == 0 || t.last() == '\n',
        forall|i: int| 0 <= i < l.len() ==> l[i] != '\n',
    ensures
        buddyinfo_points(lines(t + l + "\n"@)) == buddyinfo_points(lines(t)) + buddyinfo_line_points(
            strip_cr(l),
        ),
{
    lemma_lines_append(t, l);
    let ls = lines(t).push(strip_cr(l));
    assert(ls.drop_last() =~= lines(t));
    assert(ls.last() == strip_cr(l));
}

/// Appending a line of /proc/pagetypeinfo to a text (empty or ending with a line feed)
/// appends the points of that line, and only those, to the points of the text.
pub proof fn lemma_pagetype_text_append(t: Seq<char>, l: Seq<char>)
    requires
        t.len() == 0 || t.last() == '\n',
        forall|i: int| 0 <= i < l.len() ==> l[i] != '\n',
    ensures
        pagetype_points(lines(t + l + "\n"@)) == pagetype_points(lines(t)) + pagetype_line_points(
            strip_cr(l),
        ),
{
    lemma_lines_append(t, l);
    let ls = lines(t).push(strip_cr(l));
    assert(ls.drop_last() =~= lines(t));
    assert(ls.last() == strip_cr(l));
}

/// A buddyinfo line "Node <n>, zone <zone> <c0> <c1> ..." with at least five words gives one
/// point per count, in order: the count of order `k` (the word after the zone's, `k` places
/// on) as metric "buddyinfo_order_<k>" of series "node_<n>_zone_<zone>". A shorter line gives
/// none.
pub proof fn lemma_buddyinfo_line_points(line: Seq<char>)
    ensures
        words(line).len() < 5 ==> buddyinfo_line_points(line).len() == 0,
        words(line).len() >= 5 ==> {
            let w = words(line);
            &&& buddyinfo_line_points(line).len() == w.len() - 4
            &&& forall|k: int|
                0 <= k < w.len() - 4 ==> #[trigger] buddyinfo_line_points(line)[k] == (
                    "buddyinfo_order_"@ + decimal(k as nat),
                    "node_"@ + trim_end_char(w[1], ',') + "_zone_"@ + w[3],
                    w[4 + k],
                )
        },
{
}

/// The points of the pagetypeinfo lines of two texts one after the other are the points of
/// the first followed by those of the second.
pub proof fn lemma_pagetype_points_concat(a: Seq<Seq<char>>, b: Seq<Seq<char>>)
    ensures
        pagetype_points(a + b) == pagetype_points(a) + pagetype_points(b),
    decreases b.len(),
{
    if b.len() == 0 {
        assert(a + b =~= a);
        assert(pagetype_points(a) + pagetype_points(b) =~= pagetype_points(a));
    } else {
        lemma_pagetype_points_concat(a, b.drop_last());
        assert((a + b).drop_last() =~= a + b.drop_last());
        assert((a + b).last() == b.last());
        assert(pagetype_points(a) + pagetype_points(b) =~= pagetype_points(a) + pagetype_points(
            b.drop_last(),
        ) + pagetype_line_points(b.last()));
    }
}

/// The points of each line of a pagetypeinfo text appear in the points of the text, between
/// the points of the lines before it and those of the lines after it.
pub proof fn lemma_pagetype_line_among_points(ls: Seq<Seq<char>>, i: int)
    requires
        0 <= i < ls.len(),
    ensures
        pagetype_points(ls) == pagetype_points(ls.take(i)) + pagetype_line_points(ls[i])
            + pagetype_points(ls.skip(i + 1)),
{
    assert(ls =~= ls.take(i) + seq![ls[i]] + ls.skip(i + 1));
    lemma_pagetype_points_concat(ls.take(i) + seq![ls[i]], ls.skip(i + 1));
    lemma_pagetype_points_concat(ls.take(i), seq![ls[i]]);
    let one = seq![ls[i]];
    assert(one.drop_last() =~= Seq::<Seq<char>>::empty());
    assert(one.last() == ls[i]);
    assert(pagetype_points(one.drop_last()) =~= Seq::<PointView>::empty());
    assert(pagetype_points(one) =~= pagetype_line_points(ls[i]));
}

fn concat3(a: &str, b: &str, c: &str) -> (r: String)
    ensures
        r@ == a@ + b@ + c@,
{
    let mut s = String::new();
    push_str(&mut s, a);
    push_str(&mut s, b);
    push_str(&mut s, c);
    s
}

fn numbered(prefix: &str, k: usize) -> (r: String)
    ensures
        r@ == prefix@ + decimal(k as nat),
{
    let mut s = String::new();
    push_str(&mut s, prefix);
    push_decimal(&mut s, k as u64);
    s
}

/// Appends the points of one buddyinfo line.
fn push_buddyinfo_line(out: &mut Vec<DataPoint>, line: &str)
    ensures
        points_view(final(out)@) == points_view(old(out)@) + buddyinfo_line_points(line@),
{
    let w = words_of(line);
    let ghost wv = words(line@);
    if w.len() < 5 {
        assert(points_view(out@) + buddyinfo_line_points(line@) =~= points_view(out@));
        return;
    }
    assert(w@[1]@ == wv[1] && w@[3]@ == wv[3]);
    let node = trim_end_matches_char(w[1].as_str(), ',');
    let mut series = concat3("node_", node.as_str(), "_zone_");
    push_str(&mut series, w[3].as_str());
    let ghost start = points_view(out@);
    let ghost all = buddyinfo_line_points(line@);
    let mut k: usize = 4;
    while k < w.len()
        invariant
            wv == words(line@),
            strs_view(w@) == wv,
            wv.len() >= 5,
            4 <= k <= w@.len(),
            all == buddyinfo_line_points(line@),
            series@ == "node_"@ + trim_end_char(wv[1], ',') + "_zone_"@ + wv[3],
            points_view(out@) == start + all.take(k - 4),
        decreases w.len() - k,
    {
        let p = DataPoint {
            metric_name: numbered("buddyinfo_order_", k - 4),
            series_name: series.clone(),
            value: w[k].clone(),
        };
        assert(w@[k as int]@ == wv[k as int]);
        let ghost before = points_view(out@);
        out.push(p);
        assert(points_view(out@) =~= before.push((p.metric_name@, p.series_name@, p.value@)));
        assert(all.take(k - 3) =~= all.take(k - 4).push(all[k - 4]));
        k = k + 1;
    }
    assert(all.take(w@.len() - 4) =~= all);
}

/// The data points of the text of /proc/buddyinfo.
pub fn buddyinfo_data_points(text: &str) -> (r: Vec<DataPoint>)
    ensures
        points_view(r@) == buddyinfo_points(lines(text@)),
{
    let ls = lines_of(text);
    let ghost lv = lines(text@);
    let mut out: Vec<DataPoint> = Vec::new();
    let mut i: usize = 0;
    assert(lv.take(0) =~= Seq::<Seq<char>>::empty());
    assert(points_view(out@) =~= Seq::<PointView>::empty());
    while i < ls.len()
        invariant
            strs_view(ls@) == lv,
            0 <= i <= ls@.len(),
            points_view(out@) == buddyinfo_points(lv.take(i as int)),
        decreases ls.len() - i,
    {
        assert(lv.take(i + 1).drop_last() =~= lv.take(i as int));
        assert(lv.take(i + 1).last() == ls@[i as int]@);
        push_buddyinfo_line(&mut out, ls[i].as_str());
        i = i + 1;
    }
    assert(lv.take(ls@.len() as int) =~= lv);
    out
}

// ------------------------------------------------------------------------------------------
// /proc/pagetypeinfo
// ------------------------------------------------------------------------------------------

/// The migrate types of the counts of page blocks, in the order of their columns.
pub open spec fn migrate_type(k: int) -> Seq<char> {
    if k == 0 {
        "Unmovable"@
    } else if k == 1 {
        "Movable"@
    } else if k == 2 {
        "Reclaimable"@
    } else if k == 3 {
        "HighAtomic"@
    } else if k == 4 {
        "CMA"@
    } else {
        "Isolate"@
    }
}

/// The page-block counts of a pagetypeinfo zone line are read in the order of the migrate
/// types in the header of that table: Unmovable, Movable, Reclaimable, HighAtomic, CMA,
/// Isolate.
pub proof fn lemma_migrate_type_order()
    ensures
        migrate_type(0) == "Unmovable"@,
        migrate_type(1) == "Movable"@,
        migrate_type(2) == "Reclaimable"@,
        migrate_type(3) == "HighAtomic"@,
        migrate_type(4) == "CMA"@,
        migrate_type(5) == "Isolate"@,
{
}

/// The points of a line of /proc/pagetypeinfo. A line "Node 0, zone Normal, type Movable
/// <order 0> <order 1> ..." gives the free pages of each order as metric
/// "pagetype_order_<order>_type_<type>" of series "node_<node>_zone_<zone>"; a line
/// "Node 0, zone Normal <Unmovable> <Movable> ..." with at least 8 words gives the page
/// blocks of each migrate type (up to six) as metric "pageblocks_type_<type>" of series
/// "zone_<zone>". A line can match both forms, and then gives both.
pub open spec fn pagetype_line_points(line: Seq<char>) -> Seq<PointView> {
    let w = words(line);
    let free = if w.len() >= 6 && w[0] == "Node"@ && w[4] == "type"@ {
        let series = "node_"@ + trim_end_char(w[1], ',') + "_zone_"@ + trim_end_char(w[3], ',');
        Seq::new(
            (w.len() - 6) as nat,
            |k: int|
                ("pagetype_order_"@ + decimal(k as nat) + "_type_"@ + w[5], series, w[6 + k]),
        )
    } else {
        Seq::<PointView>::empty()
    };
    let blocks = if w.len() >= 8 && w[0] == "Node"@ && w[2] == "zone"@ {
        let series = "zone_"@ + trim_end_char(w[3], ',');
        let n = if w.len() - 4 < 6 {
            w.len() - 4
        } else {
            6
        };
        Seq::new(n as nat, |k: int| ("pageblocks_type_"@ + migrate_type(k), series, w[4 + k]))
    } else {
        Seq::<PointView>::empty()
    };
    free + blocks
}

pub open spec fn pagetype_points(ls: Seq<Seq<char>>) -> Seq<PointView>
    decreases ls.len(),
{
    if ls.len() == 0 {
        Seq::<PointView>::empty()
    } else {
        pagetype_points(ls.drop_last()) + pagetype_line_points(ls.last())
    }
}

fn migrate_type_of(k: usize) -> (r: &'static str)
    requires
        k < 6,
    ensures
        r@ == migrate_type(k as int),
{
    if k == 0 {
        "Unmovable"
    } else if k == 1 {
        "Movable"
    } else if k == 2 {
        "Reclaimable"
    } else if k == 3 {
        "HighAtomic"
    } else if k == 4 {
        "CMA"
    } else {
        "Isolate"
    }
}

fn push_pagetype_line(out: &mut Vec<DataPoint>, line: &str)
    ensures
        points_view(final(out)@) == points_view(old(out)@) + pagetype_line_points(line@),
{
    let w = words_of(line);
    let ghost wv = words(line@);
    let ghost start = points_view(out@);
    let ghost w_len = wv.len();
    let is_free = w.len() >= 6 && str_eq(w[0].as_str(), "Node") && str_eq(w[4].as_str(), "type");
    let ghost free_pts = if w_len >= 6 && wv[0] == "Node"@ && wv[4] == "type"@ {
        let series = "node_"@ + trim_end_char(wv[1], ',') + "_zone_"@ + trim_end_char(wv[3], ',');
        Seq::new(
            (wv.len() - 6) as nat,
            |k: int|
                ("pagetype_order_"@ + decimal(k as nat) + "_type_"@ + wv[5], series, wv[6 + k]),
        )
    } else {
        Seq::<PointView>::empty()
    };
    if is_free {
        assert(w@[0]@ == wv[0] && w@[1]@ == wv[1] && w@[3]@ == wv[3] && w@[4]@ == wv[4] && w@[5]@
            == wv[5]);
        let node = trim_end_matches_char(w[1].as_str(), ',');
        let zone = trim_end_matches_char(w[3].as_str(), ',');
        let mut series = concat3("node_", node.as_str(), "_zone_");
        push_str(&mut series, zone.as_str());
        let mut k: usize = 6;
        while k < w.len()
            invariant
                wv == words(line@),
                strs_view(w@) == wv,
                wv.len() >= 6,
                6 <= k <= w@.len(),
                wv[0] == "Node"@ && wv[4] == "type"@,
                free_pts.len() == wv.len() - 6,
                free_pts == Seq::new(
                    (wv.len() - 6) as nat,
                    |j: int|
                        (
                            "pagetype_order_"@ + decimal(j as nat) + "_type_"@ + wv[5],
                            "node_"@ + trim_end_char(wv[1], ',') + "_zone_"@ + trim_end_char(
                                wv[3],
                                ',',
                            ),
                            wv[6 + j],
                        ),
                ),
                series@ == "node_"@ + trim_end_char(wv[1], ',') + "_zone_"@ + trim_end_char(
                    wv[3],
                    ',',
                ),
                points_view(out@) == start + free_pts.take(k - 6),
            decreases w.len() - k,
        {
            let mut metric = numbered("pagetype_order_", k - 6);
            push_str(&mut metric, "_type_");
            push_str(&mut metric, w[5].as_str());
            let p = DataPoint { metric_name: metric, series_name: series.clone(), value: w[k].clone() };
            assert(w@[k as int]@ == wv[k as int]);
            assert(w@[5]@ == wv[5]);
            let ghost before = points_view(out@);
            out.push(p);
            assert(points_view(out@) =~= before.push((p.metric_name@, p.series_name@, p.value@)));
            assert(free_pts.take(k - 5) =~= free_pts.take(k - 6).push(free_pts[k - 6]));
            k = k + 1;
        }
        assert(free_pts.take(w@.len() - 6) =~= free_pts);
    } else {
        assert(start + free_pts =~= start);
    }
    let ghost mid = points_view(out@);
    assert(mid == start + free_pts);
    let is_blocks = w.len() >= 8 && str_eq(w[0].as_str(), "Node") && str_eq(w[2].as_str(), "zone");
    let ghost block_pts = if w_len >= 8 && wv[0] == "Node"@ && wv[2] == "zone"@ {
        let series = "zone_"@ + trim_end_char(wv[3], ',');
        let n = if wv.len() - 4 < 6 {
            wv.len() - 4
        } else {
            6
        };
        Seq::new(n as nat, |k: int| ("pageblocks_type_"@ + migrate_type(k), series, wv[4 + k]))
    } else {
        Seq::<PointView>::empty()
    };
    if is_blocks {
        assert(w@[0]@ == wv[0] && w@[2]@ == wv[2] && w@[3]@ == wv[3]);
        let zone = trim_end_matches_char(w[3].as_str(), ',');
        let mut series = String::new();
        push_str(&mut series, "zone_");
        push_str(&mut series, zone.as_str());
        let n: usize = if w.len() - 4 < 6 {
            w.len() - 4
        } else {
            6
        };
        let mut k: usize = 0;
        while k < n
            invariant
                wv == words(line@),
                strs_view(w@) == wv,
                wv.len() >= 8,
                0 <= k <= n,
                n <= 6,
                n == (if wv.len() - 4 < 6 {
                    wv.len() - 4
                } else {
                    6
                }),
                wv[0] == "Node"@ && wv[2] == "zone"@,
                block_pts == Seq::new(
                    n as nat,
                    |j: int|
                        (
                            "pageblocks_type_"@ + migrate_type(j),
                            "zone_"@ + trim_end_char(wv[3], ','),
                            wv[4 + j],
                        ),
                ),
                series@ == "zone_"@ + trim_end_char(wv[3], ','),
                points_view(out@) == mid + block_pts.take(k as int),
            decreases n - k,
        {
            let mut metric = String::new();
            push_str(&mut metric, "pageblocks_type_");
            push_str(&mut metric, migrate_type_of(k));
            let p = DataPoint {
                metric_name: metric,
                series_name: series.clone(),
                value: w[4 + k].clone(),
            };
            assert(w@[4 + k]@ == wv[4 + k]);
            let ghost before = points_view(out@);
            out.push(p);
            assert(points_view(out@) =~= before.push((p.metric_name@, p.series_name@, p.value@)));
            assert(block_pts.take(k + 1) =~= block_pts.take(k as int).push(block_pts[k as int]));
            k = k + 1;
        }
        assert(block_pts.take(n as int) =~= block_pts);
    } else {
        assert(mid + block_pts =~= mid);
    }
    assert(pagetype_line_points(line@) == free_pts + block_pts);
    assert(start + free_pts + block_pts =~= start + (free_pts + block_pts));
}

/// The data points of the text of /proc/pagetypeinfo.
pub fn pagetypeinfo_data_points(text: &str) -> (r: Vec<DataPoint>)
    ensures
        points_view(r@) == pagetype_points(lines(text@)),
{
    let ls = lines_of(text);
    let ghost lv = lines(text@);
    let mut out: Vec<DataPoint> = Vec::new();
    let mut i: usize = 0;
    assert(lv.take(0) =~= Seq::<Seq<char>>::empty());
    assert(points_view(out@) =~= Seq::<PointView>::empty());
    while i < ls.len()
        invariant
            strs_view(ls@) == lv,
            0 <= i <= ls@.len(),
            points_view(out@) == pagetype_points(lv.take(i as int)),
        decreases ls.len() - i,
    {
        assert(lv.take(i + 1).drop_last() =~= lv.take(i as int));
        assert(lv.take(i + 1).last() == ls@[i as int]@);
        push_pagetype_line(&mut out, ls[i].as_str());
        i = i + 1;
    }
    assert(lv.take(ls@.len() as int) =~= lv);
    out
}

// ------------------------------------------------------------------------------------------
// /proc/slabinfo
// ------------------------------------------------------------------------------------------

/// The slabinfo metrics and the columns that hold them.
pub open spec fn slab_metric(k: int) -> (Seq<char>, int) {
    if k == 0 {
        ("active_objs"@, 1)
    } else if k == 1 {
        ("num_objs"@, 2)
    } else if k == 2 {
        ("objsize"@, 3)
    } else if k == 3 {
        ("objperslab"@, 4)
    } else if k == 4 {
        ("pagesperslab"@, 5)
    } else if k == 5 {
        ("limit"@, 8)
    } else if k == 6 {
        ("batchcount"@, 9)
    } else if k == 7 {
        ("sharedfactor"@, 10)
    } else if k == 8 {
        ("active_slabs"@, 13)
    } else if k == 9 {
        ("num_slabs"@, 14)
    } else {
        ("sharedavail"@, 15)
    }
}

/// The fields of a line of /proc/slabinfo as its header names them ("# name <active_objs>
/// <num_objs> <objsize> <objperslab> <pagesperslab> : tunables <limit> <batchcount>
/// <sharedfactor> : slabdata <active_slabs> <num_slabs> <sharedavail>"), one per word of a
/// line.
pub open spec fn slabinfo_header_fields() -> Seq<Seq<char>> {
    seq![
        "name"@,
        "active_objs"@,
        "num_objs"@,
        "objsize"@,
        "objperslab"@,
        "pagesperslab"@,
        ":"@,
        "tunables"@,
        "limit"@,
        "batchcount"@,
        "sharedfactor"@,
        ":"@,
        "slabdata"@,
        "active_slabs"@,
        "num_slabs"@,
        "sharedavail"@,
    ]
}

/// Each slabinfo metric is read from the word of a line that the header names after it:
/// active objects from the second word, the number of slabs from the fifteenth, and so on;
/// no two metrics share a word.
pub proof fn lemma_slab_metric_columns()
    ensures
        slab_metric(0) == ("active_objs"@, 1int),
        slab_metric(1) == ("num_objs"@, 2int),
        slab_metric(2) == ("objsize"@, 3int),
        slab_metric(3) == ("objperslab"@, 4int),
        slab_metric(4) == ("pagesperslab"@, 5int),
        slab_metric(5) == ("limit"@, 8int),
        slab_metric(6) == ("batchcount"@, 9int),
        slab_metric(7) == ("sharedfactor"@, 10int),
        slab_metric(8) == ("active_slabs"@, 13int),
        slab_metric(9) == ("num_slabs"@, 14int),
        slab_metric(10) == ("sharedavail"@, 15int),
        forall|k: int|
            0 <= k < 11 ==> 0 <= (#[trigger] slab_metric(k)).1 < slabinfo_header_fields().len()
                && slabinfo_header_fields()[slab_metric(k).1] == slab_metric(k).0,
        forall|a: int, b: int|
            0 <= a < 11 && 0 <= b < 11 && a != b ==> (#[trigger] slab_metric(a)).1 != (
            #[trigger] slab_metric(b)).1,
{
    let h = slabinfo_header_fields();
    assert(h[1] == "active_objs"@);
    assert(h[2] == "num_objs"@);
    assert(h[3] == "objsize"@);
    assert(h[4] == "objperslab"@);
    assert(h[5] == "pagesperslab"@);
    assert(h[8] == "limit"@);
    assert(h[9] == "batchcount"@);
    assert(h[10] == "sharedfactor"@);
    assert(h[13] == "active_slabs"@);
    assert(h[14] == "num_slabs"@);
    assert(h[15] == "sharedavail"@);
}

/// The points of a line of /proc/slabinfo after its header: with at least 16 words, each
/// slabinfo metric as metric "slabinfo_<metric>" of the series named by the first word.
pub open spec fn slab_line_points(line: Seq<char>) -> Seq<PointView> {
    let w = words(line);
    if w.len() < 16 {
        Seq::<PointView>::empty()
    } else {
        Seq::new(11, |k: int| ("slabinfo_"@ + slab_metric(k).0, w[0], w[slab_metric(k).1]))
    }
}

/// The points of /proc/slabinfo: nothing up to and including the first line that starts
/// with "# name" (the header), then the points of each line.
pub open spec fn slab_points(ls: Seq<Seq<char>>) -> (bool, Seq<PointView>)
    decreases ls.len(),
{
    if ls.len() == 0 {
        (true, Seq::<PointView>::empty())
    } else {
        let (skip, pts) = slab_points(ls.drop_last());
        if skip {
            (!"# name"@.is_prefix_of(ls.last()), pts)
        } else {
            (false, pts + slab_line_points(ls.last()))
        }
    }
}

fn slab_metric_of(k: usize) -> (r: (&'static str, usize))
    requires
        k < 11,
    ensures
        (r.0@, r.1 as int) == slab_metric(k as int),
{
    if k == 0 {
        ("active_objs", 1)
    } else if k == 1 {
        ("num_objs", 2)
    } else if k == 2 {
        ("objsize", 3)
    } else if k == 3 {
        ("objperslab", 4)
    } else if k == 4 {
        ("pagesperslab", 5)
    } else if k == 5 {
        ("limit", 8)
    } else if k == 6 {
        ("batchcount", 9)
    } else if k == 7 {
        ("sharedfactor", 10)
    } else if k == 8 {
        ("active_slabs", 13)
    } else if k == 9 {
        ("num_slabs", 14)
    } else {
        ("sharedavail", 15)
    }
}

fn push_slab_line(out: &mut Vec<DataPoint>, line: &str)
    ensures
        points_view(final(out)@) == points_view(old(out)@) + slab_line_points(line@),
{
    let w = words_of(line);
    let ghost wv = words(line@);
    let ghost start = points_view(out@);
    if w.len() < 16 {
        assert(start + slab_line_points(line@) =~= start);
        return;
    }
    let ghost all = slab_line_points(line@);
    let mut k: usize = 0;
    while k < 11
        invariant
            wv == words(line@),
            strs_view(w@) == wv,
            wv.len() >= 16,
            0 <= k <= 11,
            all == slab_line_points(line@),
            points_view(out@) == start + all.take(k as int),
        decreases 11 - k,
    {
        let (name, col) = slab_metric_of(k);
        let mut metric = String::new();
        push_str(&mut metric, "slabinfo_");
        push_str(&mut metric, name);
        let p = DataPoint { metric_name: metric, series_name: w[0].clone(), value: w[col].clone() };
        assert(w@[0]@ == wv[0] && w@[col as int]@ == wv[col as int]);
        let ghost before = points_view(out@);
        out.push(p);
        assert(points_view(out@) =~= before.push((p.metric_name@, p.series_name@, p.value@)));
        assert(all.take(k + 1) =~= all.take(k as int).push(all[k as int]));
        k = k + 1;
    }
    assert(all.take(11) =~= all);
}

/// The data points of the text of /proc/slabinfo.
pub fn slabinfo_data_points(text: &str) -> (r: Vec<DataPoint>)
    ensures
        points_view(r@) == slab_points(lines(text@)).1,
{
    let ls = lines_of(text);
    let ghost lv = lines(text@);
    let mut out: Vec<DataPoint> = Vec::new();
    let mut skip_header = true;
    let mut i: usize = 0;
    assert(lv.take(0) =~= Seq::<Seq<char>>::empty());
    assert(points_view(out@) =~= Seq::<PointView>::empty());
    while i < ls.len()
        invariant
            strs_view(ls@) == lv,
            0 <= i <= ls@.len(),
            (skip_header, points_view(out@)) == slab_points(lv.take(i as int)),
        decreases ls.len() - i,
    {
        assert(lv.take(i + 1).drop_last() =~= lv.take(i as int));
        assert(lv.take(i + 1).last() == ls@[i as int]@);
        if skip_header {
            if str_starts_with(ls[i].as_str(), "# name") {
                skip_header = false;
            }
        } else {
            push_slab_line(&mut out, ls[i].as_str());
        }
        i = i + 1;
    }
    assert(lv.take(ls@.len() as int) =~= lv);
    out
}

// ------------------------------------------------------------------------------------------
// Display names
// ------------------------------------------------------------------------------------------

/// Two to the power `n`.
pub open spec fn pow2n(n: nat) -> nat
    decreases n,
{
    if n == 0 {
        1
    } else {
        2 * pow2n((n - 1) as nat)
    }
}

proof fn lemma_pow2n_le(n: nat, m: nat)
    requires
        n <= m,
    ensures
        pow2n(n) <= pow2n(m),
    decreases m,
{
    if n < m {
        lemma_pow2n_le(n, (m - 1) as nat);
    }
}

/// The size of a block of an order (4 KiB pages), as the report shows it: in MB from 1024
/// KB on, else in KB.
pub open spec fn block_size_text(order: nat) -> Seq<char> {
    let kb = 4 * pow2n(order);
    if kb >= 1024 {
        decimal(kb / 1024) + "MB"@
    } else {
        decimal(kb) + "KB"@
    }
}

/// `c` with every '_' replaced by ' '.
pub open spec fn underscores_to_spaces(s: Seq<char>) -> Seq<char> {
    s.map_values(|c: char| if c == '_' { ' ' } else { c })
}

/// The order in a metric name that the display name states a size for: after
/// "buddyinfo_order_", or the third '_'-separated part of a "pagetype_" name whose second
/// part is "order".
pub open spec fn named_order(name: Seq<char>) -> Option<nat> {
    if "buddyinfo_order_"@.is_prefix_of(name) {
        parse_unsigned(name.skip(16), u32::MAX as nat)
    } else if "pageblocks_"@.is_prefix_of(name) {
        None
    } else if "pagetype_"@.is_prefix_of(name) {
        let ps = char_positions(name, '_');
        if ps.len() >= 4 && name.subrange(ps[0] + 1, ps[1]) == "order"@ {
            parse_unsigned(name.subrange(ps[1] + 1, ps[2]), u32::MAX as nat)
        } else {
            None
        }
    } else {
        None
    }
}

/// The name under which a memory allocation metric is shown:
/// - "buddyinfo_order_<o>" as "BuddyInfo order_<o> (<size>)";
/// - "pageblocks_type_<t>" as "PageBlocks - <t>" (any other "pageblocks_" name as
///   "PageBlocks - ");
/// - "pagetype_order_<o>_type_<t>" as "PageType <t> - order_<o> (<size>)";
/// - "slabinfo_<m>" as "SlabInfo " and <m> with spaces for underscores;
/// - and any other name as it is.
pub open spec fn memalloc_display_name(name: Seq<char>) -> Seq<char> {
    if "buddyinfo_order_"@.is_prefix_of(name) {
        match parse_unsigned(name.skip(16), u32::MAX as nat) {
            Some(o) => "BuddyInfo order_"@ + decimal(o) + " ("@ + block_size_text(o) + ")"@,
            None => name,
        }
    } else if "pageblocks_"@.is_prefix_of(name) {
        "PageBlocks - "@ + if "pageblocks_type_"@.is_prefix_of(name) {
            name.skip(16)
        } else {
            Seq::<char>::empty()
        }
    } else if "pagetype_"@.is_prefix_of(name) {
        let ps = char_positions(name, '_');
        if ps.len() >= 4 && name.subrange(ps[0] + 1, ps[1]) == "order"@ {
            match parse_unsigned(name.subrange(ps[1] + 1, ps[2]), u32::MAX as nat) {
                Some(o) => "PageType "@ + name.skip(ps[3] + 1) + " - order_"@ + decimal(o)
                    + " ("@ + block_size_text(o) + ")"@,
                None => name,
            }
        } else {
            name
        }
    } else if "slabinfo_"@.is_prefix_of(name) {
        "SlabInfo "@ + underscores_to_spaces(name.skip(9))
    } else {
        name
    }
}

/// The metric names that the buddyinfo and slabinfo points carry are shown as the report
/// names them: the count of free blocks of order `k` as "BuddyInfo order_<k> (<size of a
/// block of order k>)", and a slabinfo metric as "SlabInfo " and the metric with spaces for
/// underscores.
pub proof fn lemma_memalloc_display_of_point_names(k: nat, m: Seq<char>)
    requires
        k <= u32::MAX,
    ensures
        memalloc_display_name("buddyinfo_order_"@ + decimal(k)) == "BuddyInfo order_"@ + decimal(k)
            + " ("@ + block_size_text(k) + ")"@,
        memalloc_display_name("slabinfo_"@ + m) == "SlabInfo "@ + underscores_to_spaces(m),
{
    reveal_strlit("buddyinfo_order_");
    reveal_strlit("slabinfo_");
    reveal_strlit("pageblocks_");
    reveal_strlit("pagetype_");
    let b = "buddyinfo_order_"@ + decimal(k);
    assert("buddyinfo_order_"@.is_prefix_of(b)) by {
        assert(b.subrange(0, 16) =~= "buddyinfo_order_"@);
    }
    assert(b.skip(16) =~= decimal(k));
    lemma_parse_decimal(k, u32::MAX as nat);
    let sl = "slabinfo_"@ + m;
    assert(!"buddyinfo_order_"@.is_prefix_of(sl)) by {
        if "buddyinfo_order_"@.is_prefix_of(sl) {
            assert(sl[0] == "buddyinfo_order_"@[0]);
        }
    }
    assert(!"pageblocks_"@.is_prefix_of(sl)) by {
        if "pageblocks_"@.is_prefix_of(sl) {
            assert(sl[0] == "pageblocks_"@[0]);
        }
    }
    assert(!"pagetype_"@.is_prefix_of(sl)) by {
        if "pagetype_"@.is_prefix_of(sl) {
            assert(sl[0] == "pagetype_"@[0]);
        }
    }
    assert("slabinfo_"@.is_prefix_of(sl)) by {
        assert(sl.subrange(0, 9) =~= "slabinfo_"@);
    }
    assert(sl.skip(9) =~= m);
}

proof fn lemma_positions_bounds(s: Seq<char>, c: char)
    ensures
        forall|j: int| 0 <= j < char_positions(s, c).len() ==> 0 <= #[trigger] char_positions(s, c)[j]
            < s.len() && s[char_positions(s, c)[j]] == c,
        forall|i: int, j: int|
            0 <= i < j < char_positions(s, c).len() ==> #[trigger] char_positions(s, c)[i]
                < #[trigger] char_positions(s, c)[j],
    decreases s.len(),
{
    if s.len() > 0 {
        lemma_positions_bounds(s.drop_last(), c);
        let p = char_positions(s.drop_last(), c);
        assert forall|j: int| 0 <= j < p.len() implies s[p[j]] == c by {
            assert(s.drop_last()[p[j]] == s[p[j]]);
        }
    }
}

proof fn lemma_pow2n_28()
    ensures
        pow2n(28) == 268435456,
{
    reveal_with_fuel(pow2n, 29);
}

fn push_block_size(s: &mut String, order: u64)
    requires
        order <= 28,
    ensures
        final(s)@ == old(s)@ + block_size_text(order as nat),
{
    let mut kb: u64 = 4;
    let mut i: u64 = 0;
    proof {
        lemma_pow2n_le(0, 28);
        lemma_pow2n_28();
    }
    while i < order
        invariant
            i <= order <= 28,
            kb == 4 * pow2n(i as nat),
            pow2n(i as nat) <= pow2n(28),
            pow2n(28) == 268435456,
        decreases order - i,
    {
        proof {
            lemma_pow2n_le((i + 1) as nat, 28);
        }
        kb = kb * 2;
        i = i + 1;
    }
    if kb >= 1024 {
        push_decimal(s, kb / 1024);
        push_str(s, "MB");
    } else {
        push_decimal(s, kb);
        push_str(s, "KB");
    }
}

/// The memory allocation names whose display name can be made: the order they state a size
/// for, if any, is at most 28 (a larger one overflows the size in KB).
pub open spec fn is_displayable_name(name: Seq<char>) -> bool {
    match named_order(name) {
        Some(o) => o <= 28,
        None => true,
    }
}

impl MemallocData {
    /// The name under which a memory allocation metric is shown.
    pub fn format_metric_name(name: &str) -> (r: String)
        requires
            is_displayable_name(name@),
        ensures
            r@ == memalloc_display_name(name@),
    {
        let v = chars_of(name);
        let n = v.len();
        assert(v@.subrange(0, n as int) =~= v@);
        proof {
            reveal_strlit("buddyinfo_order_");
            reveal_strlit("pageblocks_type_");
            reveal_strlit("slabinfo_");
        }
        if range_starts_with(&v, 0, n, &chars_of("buddyinfo_order_")) {
            assert(v@.subrange(16, n as int) =~= name@.skip(16));
            match parse_unsigned_range(&v, 16, n, u32::MAX as u64) {
                Some(o) => {
                    let mut s = String::new();
                    push_str(&mut s, "BuddyInfo order_");
                    push_decimal(&mut s, o);
                    push_str(&mut s, " (");
                    push_block_size(&mut s, o);
                    push_str(&mut s, ")");
                    return s;
                },
                None => {
                    return string_of_all(&v);
                },
            }
        }
        if range_starts_with(&v, 0, n, &chars_of("pageblocks_")) {
            let mut s = String::new();
            push_str(&mut s, "PageBlocks - ");
            if range_starts_with(&v, 0, n, &chars_of("pageblocks_type_")) {
                push_range(&mut s, &v, 16, n);
                assert(v@.subrange(16, n as int) =~= name@.skip(16));
            } else {
                assert(s@ =~= "PageBlocks - "@ + Seq::<char>::empty());
            }
            return s;
        }
        if range_starts_with(&v, 0, n, &chars_of("pagetype_")) {
            let ps = char_positions_of(&v, '_');
            let ghost psv = char_positions(name@, '_');
            proof {
                lemma_positions_bounds(name@, '_');
            }
            if ps.len() >= 4 {
                assert(psv[0] == ps@[0] as int && psv[1] == ps@[1] as int && psv[2] == ps@[2] as int
                    && psv[3] == ps@[3] as int);
                assert(psv[0] < psv[1] && psv[1] < psv[2] && psv[2] < psv[3]);
                if range_eq(&v, ps[0] + 1, ps[1], &chars_of("order")) {
                    match parse_unsigned_range(&v, ps[1] + 1, ps[2], u32::MAX as u64) {
                        Some(o) => {
                            let mut s = String::new();
                            push_str(&mut s, "PageType ");
                            push_range(&mut s, &v, ps[3] + 1, n);
                            assert(v@.subrange(ps[3] + 1, n as int) =~= name@.skip(ps[3] + 1));
                            push_str(&mut s, " - order_");
                            push_decimal(&mut s, o);
                            push_str(&mut s, " (");
                            push_block_size(&mut s, o);
                            push_str(&mut s, ")");
                            return s;
                        },
                        None => {
                            return string_of_all(&v);
                        },
                    }
                }
            }
            return string_of_all(&v);
        }
        if range_starts_with(&v, 0, n, &chars_of("slabinfo_")) {
            let mut s = String::new();
            push_str(&mut s, "SlabInfo ");
            let ghost start = s@;
            let mut i: usize = 9;
            while i < n
                invariant
                    9 <= i <= n == v@.len(),
                    s@ == start + underscores_to_spaces(v@.subrange(9, i as int)),
                decreases n - i,
            {
                let c = v[i];
                if c == '_' {
                    push_char(&mut s, ' ');
                } else {
                    push_char(&mut s, c);
                }
                assert(underscores_to_spaces(v@.subrange(9, i + 1)) =~= underscores_to_spaces(
                    v@.subrange(9, i as int),
                ).push(if c == '_' {
                    ' '
                } else {
                    c
                }));
                i = i + 1;
            }
            assert(v@.subrange(9, n as int) =~= name@.skip(9));
            return s;
        }
        string_of_all(&v)
    }
}

fn string_of_all(v: &Vec<char>) -> (r: String)
    ensures
        r@ == v@,
{
    let mut s = String::new();
    push_range(&mut s, v, 0, v.len());
    assert(v@.subrange(0, v@.len() as int) =~= v@);
    s
}

// ------------------------------------------------------------------------------------------
// The order of the metrics
// ------------------------------------------------------------------------------------------

/// The section of a metric in the report: buddy info first, then page types (and any other
/// name), then slab info, then page blocks.
pub open spec fn name_group(name: Seq<char>) -> nat {
    if "buddyinfo_"@.is_prefix_of(name) {
        0
    } else if "pageblocks_"@.is_prefix_of(name) {
        3
    } else if "slabinfo_"@.is_prefix_of(name) {
        2
    } else {
        1
    }
}

/// `u32::from_str`, or 0 when the text is not a `u32`.
pub open spec fn u32_or_zero(s: Seq<char>) -> nat {
    match parse_unsigned(s, u32::MAX as nat) {
        Some(n) => n,
        None => 0,
    }
}

/// The third '_'-separated part of a name, if it has one.
pub open spec fn third_part(name: Seq<char>) -> Option<Seq<char>> {
    let ps = char_positions(name, '_');
    if ps.len() < 2 {
        None
    } else {
        Some(name.subrange(ps[1] + 1, if ps.len() > 2 { ps[2] } else { name.len() as int }))
    }
}

/// The order by which names of one section are sorted: the number after
/// "buddyinfo_order_" for buddy info, the largest `u32` for page blocks, and the third part
/// of the name otherwise (0 when missing or not a number).
pub open spec fn order_key(name: Seq<char>) -> nat {
    let g = name_group(name);
    if g == 0 {
        if "buddyinfo_order_"@.is_prefix_of(name) {
            u32_or_zero(name.skip(16))
        } else {
            0
        }
    } else if g == 3 {
        u32::MAX as nat
    } else {
        match third_part(name) {
            Some(p) => u32_or_zero(p),
            None => 0,
        }
    }
}

/// A page type metric "pagetype_order_<o>_type_<t>": it has at least five '_'-separated
/// parts.
pub open spec fn is_pagetype_name(name: Seq<char>) -> bool {
    "pagetype_"@.is_prefix_of(name) && char_positions(name, '_').len() >= 4
}

/// The key by which a metric is placed: page type metrics by (section, type, order), any
/// other by (section, order, name).
pub open spec fn metric_key(name: Seq<char>) -> (nat, Seq<char>, nat, Seq<char>) {
    let g = name_group(name);
    if g == 1 {
        let ps = char_positions(name, '_');
        (1, name.skip(ps[3] + 1), u32_or_zero(name.subrange(ps[1] + 1, ps[2])), Seq::<char>::empty())
    } else {
        (g, Seq::<char>::empty(), order_key(name), name)
    }
}

/// Whether one key comes strictly before another: lexicographically, strings in the order
/// of `String`.
pub open spec fn key_lt(a: (nat, Seq<char>, nat, Seq<char>), b: (nat, Seq<char>, nat, Seq<char>)) -> bool {
    if a.0 != b.0 {
        a.0 < b.0
    } else if a.1 != b.1 {
        lex_lt(a.1, b.1)
    } else if a.2 != b.2 {
        a.2 < b.2
    } else {
        lex_lt(a.3, b.3)
    }
}

/// Whether metric `a` is placed before metric `b`.
pub open spec fn metric_before(a: Seq<char>, b: Seq<char>) -> bool {
    key_lt(metric_key(a), metric_key(b))
}

proof fn lemma_key_lt_order(
    a: (nat, Seq<char>, nat, Seq<char>),
    b: (nat, Seq<char>, nat, Seq<char>),
    c: (nat, Seq<char>, nat, Seq<char>),
)
    ensures
        !key_lt(a, a),
        key_lt(a, b) ==> !key_lt(b, a),
        key_lt(a, b) && key_lt(b, c) ==> key_lt(a, c),
        a == b || key_lt(a, b) || key_lt(b, a),
{
    lemma_lex_total(a.1, b.1);
    lemma_lex_total(a.3, b.3);
    lemma_lex_total(a.1, a.1);
    lemma_lex_total(a.3, a.3);
    lemma_lex_total(b.1, c.1);
    lemma_lex_total(b.3, c.3);
    lemma_lex_total(a.1, c.1);
    lemma_lex_total(a.3, c.3);
    if key_lt(a, b) && key_lt(b, c) {
        if a.0 == b.0 && b.0 == c.0 {
            if a.1 != b.1 && b.1 != c.1 {
                lemma_lex_trans(a.1, b.1, c.1);
            } else if a.1 == b.1 && b.1 == c.1 && a.2 == b.2 && b.2 == c.2 {
                lemma_lex_trans(a.3, b.3, c.3);
            }
        }
    }
}

/// The names for which the sections are ordered consistently: every name outside the
/// other sections is a page type metric.
pub open spec fn is_memalloc_name(name: Seq<char>) -> bool {
    name_group(name) == 1 ==> is_pagetype_name(name)
}

/// The key of a name, computed.
struct MetricKey {
    group: u64,
    text: String,
    order: u64,
    name: String,
}

spec fn key_view(k: MetricKey) -> (nat, Seq<char>, nat, Seq<char>) {
    (k.group as nat, k.text@, k.order as nat, k.name@)
}

fn u32_or_zero_of(v: &Vec<char>, lo: usize, hi: usize) -> (r: u64)
    requires
        lo <= hi <= v@.len(),
    ensures
        r as nat == u32_or_zero(v@.subrange(lo as int, hi as int)),
{
    match parse_unsigned_range(v, lo, hi, u32::MAX as u64) {
        Some(n) => n,
        None => 0,
    }
}

fn metric_key_of(name: &String) -> (r: MetricKey)
    requires
        is_memalloc_name(name@),
    ensures
        key_view(r) == metric_key(name@),
{
    let v = chars_of(name.as_str());
    let n = v.len();
    assert(v@.subrange(0, n as int) =~= v@);
    proof {
        reveal_strlit("buddyinfo_order_");
        lemma_positions_bounds(name@, '_');
    }
    let ps = char_positions_of(&v, '_');
    let ghost psv = char_positions(name@, '_');
    assert(forall|j: int| 0 <= j < ps@.len() ==> psv[j] == ps@[j] as int) by {
        assert forall|j: int| 0 <= j < ps@.len() implies psv[j] == ps@[j] as int by {
            assert(ps@.map_values(|k: usize| k as int)[j] == ps@[j] as int);
        }
    }
    if range_starts_with(&v, 0, n, &chars_of("buddyinfo_")) {
        let order = if range_starts_with(&v, 0, n, &chars_of("buddyinfo_order_")) {
            assert(v@.subrange(16, n as int) =~= name@.skip(16));
            u32_or_zero_of(&v, 16, n)
        } else {
            0
        };
        return MetricKey { group: 0, text: String::new(), order, name: name.clone() };
    }
    if range_starts_with(&v, 0, n, &chars_of("pageblocks_")) {
        return MetricKey { group: 3, text: String::new(), order: u32::MAX as u64, name: name.clone() };
    }
    if range_starts_with(&v, 0, n, &chars_of("slabinfo_")) {
        let order = if ps.len() < 2 {
            0
        } else {
            let end = if ps.len() > 2 {
                ps[2]
            } else {
                n
            };
            assert(psv[1] < psv.len() || true);
            if ps.len() > 2 {
                assert(psv[1] < psv[2]);
            }
            u32_or_zero_of(&v, ps[1] + 1, end)
        };
        return MetricKey { group: 2, text: String::new(), order, name: name.clone() };
    }
    assert(is_pagetype_name(name@));
    assert(psv[0] < psv[1] && psv[1] < psv[2] && psv[2] < psv[3]);
    let mut text = String::new();
    push_range(&mut text, &v, ps[3] + 1, n);
    assert(v@.subrange(ps[3] + 1, n as int) =~= name@.skip(ps[3] + 1));
    let order = u32_or_zero_of(&v, ps[1] + 1, ps[2]);
    let r = MetricKey { group: 1, text, order, name: String::new() };
    assert(key_view(r).3 =~= Seq::<char>::empty());
    r
}

fn key_less(a: &MetricKey, b: &MetricKey) -> (r: bool)
    ensures
        r == key_lt(key_view(*a), key_view(*b)),
{
    if a.group != b.group {
        return a.group < b.group;
    }
    if !str_eq(a.text.as_str(), b.text.as_str()) {
        return lex_less(a.text.as_str(), b.text.as_str());
    }
    if a.order != b.order {
        return a.order < b.order;
    }
    lex_less(a.name.as_str(), b.name.as_str())
}

/// The names in `s` that are placed alike with key `kk`, in order.
pub open spec fn with_key(s: Seq<Seq<char>>, kk: (nat, Seq<char>, nat, Seq<char>)) -> Seq<Seq<char>> {
    s.filter(|x: Seq<char>| metric_key(x) == kk)
}

proof fn lemma_with_key_none(s: Seq<Seq<char>>, kk: (nat, Seq<char>, nat, Seq<char>))
    requires
        forall|j: int| 0 <= j < s.len() ==> metric_key(#[trigger] s[j]) != kk,
    ensures
        with_key(s, kk) == Seq::<Seq<char>>::empty(),
    decreases s.len(),
{
    reveal(Seq::filter);
    if s.len() > 0 {
        assert forall|j: int| 0 <= j < s.drop_last().len() implies metric_key(#[trigger] s.drop_last()[j]) != kk by {
            assert(s.drop_last()[j] == s[j]);
        }
        lemma_with_key_none(s.drop_last(), kk);
    } else {
        assert(s =~= Seq::<Seq<char>>::empty());
    }
}

proof fn lemma_with_key_push(s: Seq<Seq<char>>, x: Seq<char>, kk: (nat, Seq<char>, nat, Seq<char>))
    ensures
        with_key(s.push(x), kk) == (if metric_key(x) == kk {
            with_key(s, kk).push(x)
        } else {
            with_key(s, kk)
        }),
{
    s.lemma_filter_push(x, |y: Seq<char>| metric_key(y) == kk);
}

/// Inserting a name before all names placed after it adds it last among the names placed
/// alike.
proof fn lemma_with_key_insert(s: Seq<Seq<char>>, k: int, x: Seq<char>, kk: (nat, Seq<char>, nat, Seq<char>))
    requires
        0 <= k <= s.len(),
        forall|j: int| k <= j < s.len() ==> key_lt(metric_key(x), metric_key(#[trigger] s[j])),
    ensures
        with_key(s.insert(k, x), kk) == (if metric_key(x) == kk {
            with_key(s, kk).push(x)
        } else {
            with_key(s, kk)
        }),
{
    broadcast use Seq::filter_distributes_over_add;

    let a = s.take(k);
    let b = s.skip(k);
    assert(s.insert(k, x) =~= a + seq![x] + b);
    assert(s =~= a + b);
    assert(a.push(x) =~= a + seq![x]);
    let f = |y: Seq<char>| metric_key(y) == kk;
    assert(with_key(a + seq![x] + b, kk) == (a + seq![x]).filter(f) + b.filter(f));
    assert(with_key(a + b, kk) == a.filter(f) + b.filter(f));
    lemma_with_key_push(a, x, kk);
    if metric_key(x) == kk {
        assert forall|j: int| 0 <= j < b.len() implies metric_key(#[trigger] b[j]) != kk by {
            assert(b[j] == s[k + j]);
            lemma_key_lt_order(metric_key(x), metric_key(x), metric_key(x));
        }
        lemma_with_key_none(b, kk);
        assert(with_key(s.insert(k, x), kk) =~= with_key(s, kk).push(x));
    } else {
        assert(with_key(s.insert(k, x), kk) =~= with_key(s, kk));
    }
}

/// Sorts the metric names of memory allocation data: buddy info by order, page types by
/// type then order, slab info by name, then page blocks by name. Names placed alike keep
/// their order.
pub fn sort_memalloc_metric_names(names: Vec<String>) -> (r: Vec<String>)
    requires
        forall|i: int| 0 <= i < names@.len() ==> is_memalloc_name(#[trigger] names@[i]@),
    ensures
        strs_view(r@).to_multiset() == strs_view(names@).to_multiset(),
        forall|i: int, j: int|
            0 <= i < j < r@.len() ==> !metric_before(#[trigger] r@[j]@, #[trigger] r@[i]@),
        forall|kk: (nat, Seq<char>, nat, Seq<char>)|
            #[trigger] with_key(strs_view(r@), kk) == with_key(strs_view(names@), kk),
{
    broadcast use vstd::seq_lib::group_to_multiset_ensures;

    let mut out: Vec<String> = Vec::new();
    let mut keys: Vec<MetricKey> = Vec::new();
    let mut i: usize = 0;
    assert(strs_view(names@).take(0) =~= Seq::<Seq<char>>::empty());
    assert(strs_view(out@) =~= Seq::<Seq<char>>::empty());
    while i < names.len()
        invariant
            0 <= i <= names@.len(),
            forall|k: int| 0 <= k < names@.len() ==> is_memalloc_name(#[trigger] names@[k]@),
            keys@.len() == out@.len(),
            forall|k: int| 0 <= k < out@.len() ==> key_view(#[trigger] keys@[k]) == metric_key(out@[k]@),
            forall|a: int, b: int|
                0 <= a < b < out@.len() ==> !metric_before(#[trigger] out@[b]@, #[trigger] out@[a]@),
            strs_view(out@).to_multiset() == strs_view(names@).take(i as int).to_multiset(),
            forall|kk: (nat, Seq<char>, nat, Seq<char>)|
                #[trigger] with_key(strs_view(out@), kk) == with_key(strs_view(names@).take(i as int), kk),
        decreases names.len() - i,
    {
        let x = &names[i];
        let kx = metric_key_of(x);
        let mut k: usize = 0;
        while k < out.len() && !key_less(&kx, &keys[k])
            invariant
                0 <= k <= out@.len(),
                keys@.len() == out@.len(),
                forall|j: int| 0 <= j < out@.len() ==> key_view(#[trigger] keys@[j]) == metric_key(out@[j]@),
                key_view(kx) == metric_key(x@),
                forall|j: int| 0 <= j < k ==> !metric_before(x@, #[trigger] out@[j]@),
            decreases out.len() - k,
        {
            k = k + 1;
        }
        let ghost before = strs_view(out@);
        let ghost before_out = out@;
        proof {
            if k < out@.len() {
                assert(key_lt(key_view(kx), key_view(keys@[k as int])));
                assert(key_view(keys@[k as int]) == metric_key(out@[k as int]@));
                assert(key_lt(metric_key(x@), metric_key(before[k as int])));
            }
        }
        out.insert(k, x.clone());
        keys.insert(k, kx);
        proof {
            let after = strs_view(out@);
            assert(after =~= before.insert(k as int, x@));
            assert(strs_view(names@).take(i + 1) =~= strs_view(names@).take(i as int).push(x@));
            vstd::seq_lib::to_multiset_insert(before, k as int, x@);
            vstd::seq_lib::to_multiset_build(strs_view(names@).take(i as int), x@);
            assert forall|j: int| 0 <= j < out@.len() implies #[trigger] out@[j]@ == (if j < k {
                before_out[j]@
            } else if j == k {
                x@
            } else {
                before_out[j - 1]@
            }) by {}
            assert forall|a: int, b: int| 0 <= a < b < out@.len() implies !metric_before(
                #[trigger] out@[b]@,
                #[trigger] out@[a]@,
            ) by {
                let ka = metric_key(out@[a]@);
                let kb = metric_key(out@[b]@);
                if a < k && b == k {
                    lemma_key_lt_order(metric_key(x@), ka, ka);
                } else if a == k {
                    let kk = metric_key(before_out[k as int]@);
                    assert(k < before_out.len());
                    assert(key_lt(metric_key(x@), kk));
                    if b - 1 > k {
                        assert(!metric_before(before_out[b - 1]@, before_out[k as int]@));
                        lemma_key_lt_order(kk, kb, kk);
                        lemma_key_lt_order(metric_key(x@), kk, kb);
                    }
                    lemma_key_lt_order(metric_key(x@), kb, kb);
                } else if b < k {
                    assert(out@[a] == before_out[a] && out@[b] == before_out[b]);
                } else if a < k {
                    assert(out@[a] == before_out[a] && out@[b] == before_out[b - 1]);
                } else {
                    assert(out@[a] == before_out[a - 1] && out@[b] == before_out[b - 1]);
                }
            }
        }
        proof {
            assert forall|j: int| k <= j < before.len() implies key_lt(metric_key(x@), metric_key(#[trigger] before[j])) by {
                let kk0 = metric_key(before[k as int]);
                assert(before[k as int] == before_out[k as int]@);
                assert(key_lt(metric_key(x@), kk0));
                if j > k {
                    assert(before[j] == before_out[j]@);
                    assert(!metric_before(before_out[j]@, before_out[k as int]@));
                    lemma_key_lt_order(metric_key(before[j]), kk0, metric_key(before[j]));
                    lemma_key_lt_order(metric_key(x@), kk0, metric_key(before[j]));
                }
            }
            assert forall|kk: (nat, Seq<char>, nat, Seq<char>)|
                #[trigger] with_key(strs_view(out@), kk) == with_key(strs_view(names@).take(i + 1), kk) by {
                lemma_with_key_insert(before, k as int, x@, kk);
                lemma_with_key_push(strs_view(names@).take(i as int), x@, kk);
            }
        }
        i = i + 1;
    }
    assert(strs_view(names@).take(names@.len() as int) =~= strs_view(names@));
    out
}

} // verus!

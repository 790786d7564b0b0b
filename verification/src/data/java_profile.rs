//! Java profiles: the map from JVM process ids to their names, built from `pgrep` and
//! `jps`; which JVMs a profiling request selects; the names under which JVMs are shown; and
//! the files of a JVM's profile.
use crate::text::{
    chars_of, decimal, is_lex_sorted, lex_lt, lemma_lex_total, lemma_lex_trans, pieces, push_decimal, push_range, push_str, range_eq, ranges_within,
    sort_strings, str_eq, strs_view, word_ranges, words, split, split_ranges, string_of, words_of,
};
use vstd::prelude::*;

verus! {

/// The profiling types of a JVM.
pub open spec fn profile_metrics() -> Seq<Seq<char>> {
    seq!["cpu"@, "alloc"@, "wall"@]
}

/// The profiling types of a JVM, in order.
pub fn profile_metric_names() -> (r: Vec<&'static str>)
    ensures
        strs_of(r@) == profile_metrics(),
{
    let r = vec!["cpu", "alloc", "wall"];
    assert(strs_of(r@) =~= profile_metrics());
    r
}

pub open spec fn strs_of(v: Seq<&str>) -> Seq<Seq<char>> {
    v.map_values(|s: &str| s@)
}

/// A map from process ids to names, as a sequence of entries.
pub type ProcessMapView = Seq<(Seq<char>, Seq<Seq<char>>)>;

/// The position of a key among the entries, or -1.
pub open spec fn key_index(m: ProcessMapView, k: Seq<char>) -> int
    decreases m.len(),
{
    if m.len() == 0 {
        -1
    } else if m.last().0 == k {
        m.len() - 1
    } else {
        key_index(m.drop_last(), k)
    }
}

/// The entries after `HashMap::insert`: the value of an existing key is replaced, and a new
/// key is added.
pub open spec fn map_insert(m: ProcessMapView, k: Seq<char>, v: Seq<Seq<char>>) -> ProcessMapView {
    let i = key_index(m, k);
    if i >= 0 {
        m.update(i, (k, v))
    } else {
        m.push((k, v))
    }
}

/// No key occurs twice, and every process has at least one name.
pub open spec fn map_wf(m: ProcessMapView) -> bool {
    &&& forall|i: int, j: int| 0 <= i < j < m.len() ==> (#[trigger] m[i]).0 != (#[trigger] m[j]).0
    &&& forall|i: int| 0 <= i < m.len() ==> (#[trigger] m[i]).1.len() > 0
}

proof fn lemma_key_index(m: ProcessMapView, k: Seq<char>)
    ensures
        -1 <= key_index(m, k) < m.len(),
        key_index(m, k) >= 0 ==> m[key_index(m, k)].0 == k,
        key_index(m, k) < 0 ==> forall|j: int| 0 <= j < m.len() ==> (#[trigger] m[j]).0 != k,
    decreases m.len(),
{
    if m.len() > 0 {
        lemma_key_index(m.drop_last(), k);
        assert forall|j: int| 0 <= j < m.len() - 1 implies m.drop_last()[j] == m[j] by {}
    }
}

proof fn lemma_map_insert_wf(m: ProcessMapView, k: Seq<char>, v: Seq<Seq<char>>)
    requires
        map_wf(m),
        v.len() > 0,
    ensures
        map_wf(map_insert(m, k, v)),
{
    lemma_key_index(m, k);
    let r = map_insert(m, k, v);
    let i = key_index(m, k);
    assert forall|a: int, b: int| 0 <= a < b < r.len() implies (#[trigger] r[a]).0 != (
    #[trigger] r[b]).0 by {
        if i >= 0 {
            assert(m[a].0 != m[b].0);
        } else if b < m.len() {
            assert(m[a].0 != m[b].0);
        }
    }
}

/// The keys of the entries whose first name is `arg` or whose key is `arg`, in map order.
pub open spec fn jids_of(m: ProcessMapView, arg: Seq<char>) -> Seq<Seq<char>>
    decreases m.len(),
{
    if m.len() == 0 {
        Seq::<Seq<char>>::empty()
    } else {
        let before = jids_of(m.drop_last(), arg);
        if arg == m.last().1[0] || arg == m.last().0 {
            before.push(m.last().0)
        } else {
            before
        }
    }
}

/// The name given to a JVM that `jps` has not named.
pub open spec fn unknown_jvm_name(pid: Seq<char>) -> Seq<char> {
    "Unknown_JVM_"@ + pid
}

/// The map after `pgrep`'s process ids: each process id not yet in the map is added with
/// the name of an unknown JVM. Also the ids that were added, in order.
pub open spec fn add_unknown(m: ProcessMapView, pids: Seq<Seq<char>>) -> (ProcessMapView, Seq<Seq<char>>)
    decreases pids.len(),
{
    if pids.len() == 0 {
        (m, Seq::<Seq<char>>::empty())
    } else {
        let (m1, added) = add_unknown(m, pids.drop_last());
        let p = pids.last();
        if key_index(m1, p) >= 0 {
            (m1, added)
        } else {
            (m1.push((p, seq![unknown_jvm_name(p)])), added.push(p))
        }
    }
}

/// The map after the output of `jps`, read as pairs of words (process id, name): every
/// pair whose name is not "Jps" is inserted.
pub open spec fn apply_jps(m: ProcessMapView, w: Seq<Seq<char>>, k: nat) -> ProcessMapView
    decreases k,
{
    if k < 2 {
        m
    } else {
        let m1 = apply_jps(m, w, (k - 2) as nat);
        if w[k - 1] != "Jps"@ {
            map_insert(m1, w[k - 2], seq![w[k - 1]])
        } else {
            m1
        }
    }
}

/// The JVM processes known during a recording: process id to names.
#[derive(Debug, Clone)]
pub struct JavaProfileRaw {
    process_map: Vec<(String, Vec<String>)>,
}

impl View for JavaProfileRaw {
    type V = ProcessMapView;

    closed spec fn view(&self) -> ProcessMapView {
        self.process_map@.map_values(
            |e: (String, Vec<String>)| (e.0@, e.1@.map_values(|s: String| s@)),
        )
    }
}

impl JavaProfileRaw {
    /// The map is well formed: no process id twice, and a name for each.
    pub open spec fn wf(&self) -> bool {
        map_wf(self@)
    }

    pub fn new() -> (r: Self)
        ensures
            r@ == Seq::<(Seq<char>, Seq<Seq<char>>)>::empty(),
            r.wf(),
    {
        let r = JavaProfileRaw { process_map: Vec::new() };
        assert(r@ =~= Seq::<(Seq<char>, Seq<Seq<char>>)>::empty());
        r
    }

    fn find_key(&self, k: &str) -> (r: Option<usize>)
        ensures
            match r {
                Some(i) => key_index(self@, k@) == i && i < self@.len(),
                None => key_index(self@, k@) < 0,
            },
    {
        let ghost m = self@;
        proof {
            lemma_key_index(m, k@);
        }
        let mut i = self.process_map.len();
        while i > 0
            invariant
                m == self@,
                i <= m.len(),
                forall|j: int| i <= j < m.len() ==> (#[trigger] m[j]).0 != k@,
            decreases i,
        {
            let e = &self.process_map[i - 1];
            assert(m[i - 1].0 == e.0@);
            if str_eq(e.0.as_str(), k) {
                proof {
                    lemma_key_index(m, k@);
                    lemma_key_index_suffix(m, k@, i - 1);
                }
                return Some(i - 1);
            }
            i = i - 1;
        }
        proof {
            lemma_key_index(m, k@);
        }
        None
    }

    /// Inserts a process id with its names, replacing the names of a known id.
    pub fn insert(&mut self, pid: String, names: Vec<String>)
        requires
            old(self).wf(),
            names@.len() > 0,
        ensures
            final(self)@ == map_insert(old(self)@, pid@, names@.map_values(|s: String| s@)),
            final(self).wf(),
    {
        let ghost m = self@;
        let ghost nv = names@.map_values(|s: String| s@);
        proof {
            lemma_map_insert_wf(m, pid@, nv);
        }
        match self.find_key(pid.as_str()) {
            Some(i) => {
                let ghost pv = pid@;
                assert(self.process_map@.len() == m.len());
                self.process_map.set(i, (pid, names));
                assert(self@ =~= m.update(i as int, (pv, nv)));
            },
            None => {
                let ghost pv = pid@;
                self.process_map.push((pid, names));
                assert(self@ =~= m.push((pv, nv)));
            },
        }
    }

    /// The process ids whose first name or whose id is `arg`, in map order.
    pub fn get_jids(&self, arg: &str) -> (r: Vec<String>)
        requires
            self.wf(),
        ensures
            r@.map_values(|s: String| s@) == jids_of(self@, arg@),
    {
        let ghost m = self@;
        let mut out: Vec<String> = Vec::new();
        let mut i: usize = 0;
        assert(m.take(0) =~= Seq::<(Seq<char>, Seq<Seq<char>>)>::empty());
        while i < self.process_map.len()
            invariant
                m == self@,
                map_wf(m),
                0 <= i <= m.len(),
                out@.map_values(|s: String| s@) == jids_of(m.take(i as int), arg@),
            decreases self.process_map.len() - i,
        {
            let e = &self.process_map[i];
            assert(m[i as int] == (e.0@, e.1@.map_values(|s: String| s@)));
            assert(m[i as int].1.len() > 0);
            assert(m.take(i + 1).drop_last() =~= m.take(i as int));
            let first = e.1[0].as_str();
            assert(m[i as int].1[0] == first@);
            if str_eq(arg, first) || str_eq(arg, e.0.as_str()) {
                let ghost before = out@;
                let k = e.0.clone();
                out.push(k);
                assert(out@.map_values(|s: String| s@) =~= before.map_values(|s: String| s@).push(
                    k@,
                ));
            }
            i = i + 1;
        }
        assert(m.take(i as int) =~= m);
        out
    }

    /// Adds the process ids found by `pgrep` that are not in the map yet, named as unknown
    /// JVMs, and returns those ids.
    pub fn add_unknown_jvms(&mut self, pids: &Vec<String>) -> (r: Vec<String>)
        requires
            old(self).wf(),
        ensures
            final(self).wf(),
            (final(self)@, r@.map_values(|s: String| s@)) == add_unknown(
                old(self)@,
                pids@.map_values(|s: String| s@),
            ),
    {
        let ghost ps = pids@.map_values(|s: String| s@);
        let mut added: Vec<String> = Vec::new();
        let mut i: usize = 0;
        assert(ps.take(0) =~= Seq::<Seq<char>>::empty());
        while i < pids.len()
            invariant
                ps == pids@.map_values(|s: String| s@),
                0 <= i <= pids@.len(),
                self.wf(),
                (self@, added@.map_values(|s: String| s@)) == add_unknown(
                    old(self)@,
                    ps.take(i as int),
                ),
            decreases pids.len() - i,
        {
            let p = &pids[i];
            assert(ps.take(i + 1).drop_last() =~= ps.take(i as int));
            assert(ps.take(i + 1).last() == p@);
            let ghost m = self@;
            match self.find_key(p.as_str()) {
                Some(_) => {},
                None => {
                    let mut name = String::new();
                    push_str(&mut name, "Unknown_JVM_");
                    push_str(&mut name, p.as_str());
                    let ghost nv = seq![name@];
                    let names = vec![name];
                    assert(names@.map_values(|s: String| s@) =~= nv);
                    proof {
                        lemma_key_index(m, p@);
                        lemma_map_insert_wf(m, p@, nv);
                    }
                    self.insert(p.clone(), names);
                    let ghost before = added@;
                    added.push(p.clone());
                    assert(added@.map_values(|s: String| s@) =~= before.map_values(|s: String| s@).push(
                        p@,
                    ));
                },
            }
            i = i + 1;
        }
        assert(ps.take(i as int) =~= ps);
        added
    }

    /// Reads the output of `jps` ("<pid> <name>" per JVM): each JVM other than `jps`
    /// itself is inserted with its name.
    pub fn update_from_jps(&mut self, jps_output: &str)
        requires
            old(self).wf(),
            words(jps_output@).len() % 2 == 0,
        ensures
            final(self).wf(),
            final(self)@ == apply_jps(old(self)@, words(jps_output@), words(jps_output@).len()),
    {
        let v = chars_of(jps_output);
        assert(v@.subrange(0, v@.len() as int) =~= v@);
        let ws = word_ranges(&v, 0, v.len());
        let ghost w = words(jps_output@);
        let jps = chars_of("Jps");
        let mut i: usize = 0;
        while i + 1 < ws.len()
            invariant
                pieces(v@, ws@) == w,
                ranges_within(ws@, 0, v@.len() as int),
                w.len() % 2 == 0,
                i % 2 == 0,
                0 <= i <= ws@.len(),
                jps@ == "Jps"@,
                self.wf(),
                self@ == apply_jps(old(self)@, w, i as nat),
            decreases ws.len() - i,
        {
            let (a, b) = ws[i];
            let (c, d) = ws[i + 1];
            assert(ws@[i as int] == (a, b) && ws@[i + 1] == (c, d));
            assert(w[i as int] == v@.subrange(a as int, b as int));
            assert(w[i + 1] == v@.subrange(c as int, d as int));
            if !range_eq(&v, c, d, &jps) {
                let mut pid = String::new();
                push_range(&mut pid, &v, a, b);
                let mut name = String::new();
                push_range(&mut name, &v, c, d);
                let ghost nv = seq![name@];
                let names = vec![name];
                assert(names@.map_values(|s: String| s@) =~= nv);
                assert(pid@ =~= w[i as int]);
                self.insert(pid, names);
            }
            i = i + 2;
        }
        assert(i == w.len());
    }

    /// Whether a process id is in the map.
    pub fn contains(&self, pid: &str) -> (r: bool)
        ensures
            r == (key_index(self@, pid@) >= 0),
    {
        self.find_key(pid).is_some()
    }

    /// The process ids with their names, in map order (as the map of JVMs is saved).
    pub fn entries(&self) -> (r: Vec<(String, Vec<String>)>)
        ensures
            r@.map_values(|e: (String, Vec<String>)| (e.0@, e.1@.map_values(|s: String| s@))) == self@,
    {
        let ghost m = self@;
        let mut out: Vec<(String, Vec<String>)> = Vec::new();
        let mut i: usize = 0;
        while i < self.process_map.len()
            invariant
                m == self@,
                i <= m.len(),
                out@.len() == i,
                forall|k: int|
                    0 <= k < i ==> ((#[trigger] out@[k]).0@, out@[k].1@.map_values(|s: String| s@)) == m[k],
            decreases self.process_map.len() - i,
        {
            let e = &self.process_map[i];
            assert(m[i as int] == (e.0@, e.1@.map_values(|s: String| s@)));
            let mut names: Vec<String> = Vec::new();
            let mut j: usize = 0;
            while j < e.1.len()
                invariant
                    j <= e.1@.len(),
                    names@.len() == j,
                    forall|k: int| 0 <= k < j ==> (#[trigger] names@[k])@ == e.1@[k]@,
                decreases e.1.len() - j,
            {
                names.push(e.1[j].clone());
                j = j + 1;
            }
            assert(names@.map_values(|s: String| s@) =~= e.1@.map_values(|s: String| s@));
            out.push((e.0.clone(), names));
            i = i + 1;
        }
        assert(out@.map_values(|e: (String, Vec<String>)| (e.0@, e.1@.map_values(|s: String| s@))) =~= m);
        out
    }

    /// The process ids in the map, in map order.
    pub fn pids(&self) -> (r: Vec<String>)
        ensures
            r@.map_values(|s: String| s@) == self@.map_values(
                |e: (Seq<char>, Seq<Seq<char>>)| e.0,
            ),
    {
        let ghost m = self@;
        let mut out: Vec<String> = Vec::new();
        let mut i: usize = 0;
        while i < self.process_map.len()
            invariant
                m == self@,
                0 <= i <= m.len(),
                out@.len() == i,
                out@.map_values(|s: String| s@) == m.take(i as int).map_values(
                    |e: (Seq<char>, Seq<Seq<char>>)| e.0,
                ),
            decreases self.process_map.len() - i,
        {
            let k = self.process_map[i].0.clone();
            assert(m[i as int].0 == k@);
            let ghost before = out@;
            out.push(k);
            assert(out@.map_values(|s: String| s@) =~= m.take(i + 1).map_values(
                |e: (Seq<char>, Seq<Seq<char>>)| e.0,
            )) by {
                assert(out@ == before.push(k));
                let a = before.map_values(|s: String| s@);
                let b = m.take(i as int).map_values(|e: (Seq<char>, Seq<Seq<char>>)| e.0);
                let a1 = out@.map_values(|s: String| s@);
                let b1 = m.take(i + 1).map_values(|e: (Seq<char>, Seq<Seq<char>>)| e.0);
                assert(a == b);
                assert forall|j: int| 0 <= j < i + 1 implies #[trigger] a1[j] == b1[j] by {
                    if j < i {
                        assert(a[j] == b[j]);
                        assert(m.take(i + 1)[j] == m.take(i as int)[j]);
                    } else {
                        assert(m.take(i + 1)[j] == m[i as int]);
                    }
                }
            }
            i = i + 1;
        }
        assert(m.take(i as int) =~= m);
        out
    }
}

proof fn lemma_key_index_suffix(m: ProcessMapView, k: Seq<char>, i: int)
    requires
        0 <= i < m.len(),
        m[i].0 == k,
        key_index(m, k) <= i,
        forall|j: int| i < j < m.len() ==> (#[trigger] m[j]).0 != k,
    ensures
        key_index(m, k) == i,
    decreases m.len(),
{
    if i < m.len() - 1 {
        assert(m.last().0 != k);
        let t = m.drop_last();
        assert forall|j: int| i < j < t.len() implies (#[trigger] t[j]).0 != k by {
            assert(t[j] == m[j]);
        }
        lemma_key_index(t, k);
        lemma_key_index_suffix(t, k, i);
    }
}

/// Strictly increasing in the order of `String`: sorted, with no element twice.
pub open spec fn strictly_sorted(s: Seq<Seq<char>>) -> bool {
    forall|i: int, j: int| 0 <= i < j < s.len() ==> lex_lt(#[trigger] s[i], #[trigger] s[j])
}

/// The process ids of a request, sorted, each once (as `sort` followed by `dedup`).
pub fn sorted_unique(jids: Vec<String>) -> (r: Vec<String>)
    ensures
        strictly_sorted(strs_view(r@)),
        forall|x: Seq<char>| strs_view(r@).contains(x) <==> strs_view(jids@).contains(x),
{
    broadcast use vstd::seq_lib::group_to_multiset_ensures;

    let ghost input = strs_view(jids@);
    let sorted = sort_strings(jids);
    let ghost sv = strs_view(sorted@);
    assert forall|x: Seq<char>| sv.contains(x) <==> input.contains(x) by {
        assert(sv.to_multiset().count(x) == input.to_multiset().count(x));
    }
    let mut out: Vec<String> = Vec::new();
    let mut i: usize = 0;
    while i < sorted.len()
        invariant
            sv == strs_view(sorted@),
            0 <= i <= sv.len(),
            is_lex_sorted(sv),
            strictly_sorted(strs_view(out@)),
            forall|x: Seq<char>| strs_view(out@).contains(x) <==> sv.take(i as int).contains(x),
            i > 0 ==> out@.len() > 0 && out@.last()@ == sv[i - 1],
            i == 0 ==> out@.len() == 0,
        decreases sorted.len() - i,
    {
        let x = &sorted[i];
        assert(sv[i as int] == x@);
        let ghost ov = strs_view(out@);
        let ghost s0 = sv.take(i as int);
        let ghost s1 = sv.take(i + 1);
        assert(s1 =~= s0.push(x@));
        assert(forall|y: Seq<char>| #![all_triggers] ov.contains(y) <==> s0.contains(y));
        let is_new = out.len() == 0 || !str_eq(out[out.len() - 1].as_str(), x.as_str());
        if is_new {
            let ghost before = ov;
            out.push(x.clone());
            proof {
                let after = strs_view(out@);
                assert(after =~= before.push(x@));
                if before.len() > 0 {
                    let last = before.last();
                    assert(last == sv[i - 1]);
                    assert(!lex_lt(sv[i as int], sv[i - 1]));
                    lemma_lex_total(last, x@);
                    assert(lex_lt(last, x@));
                    assert forall|a: int, b: int| 0 <= a < b < after.len() implies lex_lt(
                        #[trigger] after[a],
                        #[trigger] after[b],
                    ) by {
                        if b == after.len() - 1 {
                            if a < before.len() - 1 {
                                assert(lex_lt(before[a], before[before.len() - 1]));
                                lemma_lex_trans(before[a], last, x@);
                            }
                        } else {
                            assert(after[a] == before[a] && after[b] == before[b]);
                        }
                    }
                }
                assert forall|y: Seq<char>| after.contains(y) <==> s1.contains(y) by {
                    if after.contains(y) {
                        let k = choose|k: int| 0 <= k < after.len() && after[k] == y;
                        if k < before.len() {
                            assert(before[k] == y);
                            assert(before.contains(y));
                            let t = choose|t: int| 0 <= t < i && s0[t] == y;
                            assert(s1[t] == y);
                        } else {
                            assert(s1[i as int] == y);
                        }
                    }
                    if s1.contains(y) {
                        let t = choose|t: int| 0 <= t < i + 1 && s1[t] == y;
                        if t < i {
                            assert(s0[t] == y);
                            assert(s0.contains(y));
                            assert(before.contains(y));
                            let k = choose|k: int| 0 <= k < before.len() && before[k] == y;
                            assert(after[k] == y);
                        } else {
                            assert(after[before.len() as int] == y);
                        }
                    }
                }
            }
        } else {
            proof {
                assert(ov.last() == x@);
                assert forall|y: Seq<char>| ov.contains(y) <==> s1.contains(y) by {
                    if ov.contains(y) {
                        let t = choose|t: int| 0 <= t < i && s0[t] == y;
                        assert(s1[t] == y);
                    }
                    if s1.contains(y) {
                        let t = choose|t: int| 0 <= t < i + 1 && s1[t] == y;
                        if t < i {
                            assert(s0[t] == y);
                            assert(s0.contains(y));
                        } else {
                            assert(ov[ov.len() - 1] == y);
                        }
                    }
                }
            }
        }
        i = i + 1;
    }
    assert(sv.take(i as int) =~= sv);
    out
}

/// The name under which each JVM is shown, in map order: its first name (or "unknown"),
/// followed by " (<n>)" for the n-th later JVM of the same name.
pub open spec fn first_name(names: Seq<Seq<char>>) -> Seq<char> {
    if names.len() > 0 {
        names[0]
    } else {
        "unknown"@
    }
}

/// How many of the first `k` entries have the first name `name`.
pub open spec fn count_named(m: ProcessMapView, name: Seq<char>, k: int) -> nat
    decreases k,
{
    if k <= 0 {
        0
    } else {
        count_named(m, name, k - 1) + if first_name(m[k - 1].1) == name {
            1nat
        } else {
            0nat
        }
    }
}

pub open spec fn deduped_name(m: ProcessMapView, i: int) -> Seq<char> {
    let name = first_name(m[i].1);
    let c = count_named(m, name, i);
    if c == 0 {
        name
    } else {
        name + " ("@ + decimal(c) + ")"@
    }
}

impl JavaProfileRaw {
    fn first_name_of(&self, i: usize) -> (r: String)
        requires
            i < self@.len(),
        ensures
            r@ == first_name(self@[i as int].1),
    {
        let e = &self.process_map[i];
        assert(self@[i as int] == (e.0@, e.1@.map_values(|s: String| s@)));
        if e.1.len() > 0 {
            e.1[0].clone()
        } else {
            let mut s = String::new();
            push_str(&mut s, "unknown");
            s
        }
    }

    /// The name under which each JVM is shown, in map order: JVMs that share a name are told
    /// apart by the number of earlier JVMs of that name.
    pub fn deduped_jvm_names(&self) -> (r: Vec<String>)
        ensures
            r@.len() == self@.len(),
            forall|i: int| 0 <= i < r@.len() ==> (#[trigger] r@[i])@ == deduped_name(self@, i),
    {
        let ghost m = self@;
        let n = self.process_map.len();
        let mut out: Vec<String> = Vec::new();
        let mut i: usize = 0;
        while i < n
            invariant
                m == self@,
                n == m.len(),
                0 <= i <= n,
                out@.len() == i,
                forall|j: int| 0 <= j < i ==> (#[trigger] out@[j])@ == deduped_name(m, j),
            decreases n - i,
        {
            let name = self.first_name_of(i);
            let mut count: u64 = 0;
            let mut j: usize = 0;
            while j < i
                invariant
                    m == self@,
                    n == m.len(),
                    0 <= j <= i < n,
                    name@ == first_name(m[i as int].1),
                    count == count_named(m, name@, j as int),
                    count <= j,
                decreases i - j,
            {
                let other = self.first_name_of(j);
                if str_eq(other.as_str(), name.as_str()) {
                    count = count + 1;
                }
                j = j + 1;
            }
            let mut shown = String::new();
            push_str(&mut shown, name.as_str());
            if count > 0 {
                push_str(&mut shown, " (");
                push_decimal(&mut shown, count);
                push_str(&mut shown, ")");
            }
            out.push(shown);
            i = i + 1;
        }
        out
    }
}

/// The data type of Java profiles.
#[derive(Debug, Clone)]
pub struct JavaProfile;

impl JavaProfile {
    pub fn new() -> Self {
        JavaProfile
    }
}

/// The recording of a JVM by async-profiler, in the temporary directory.
pub fn jfr_file_name(run_name: &str, jid: &str) -> (r: String)
    ensures
        r@ == run_name@ + "-java-profile-"@ + jid@ + ".jfr"@,
{
    let mut s = String::new();
    push_str(&mut s, run_name);
    push_str(&mut s, "-java-profile-");
    push_str(&mut s, jid);
    push_str(&mut s, ".jfr");
    s
}

/// The heatmap of one profiling type of a JVM.
pub fn heatmap_file_name(run_name: &str, jid: &str, metric: &str) -> (r: String)
    ensures
        r@ == run_name@ + "-java-profile-"@ + jid@ + "-"@ + metric@ + ".html"@,
{
    let mut s = String::new();
    push_str(&mut s, run_name);
    push_str(&mut s, "-java-profile-");
    push_str(&mut s, jid);
    push_str(&mut s, "-");
    push_str(&mut s, metric);
    push_str(&mut s, ".html");
    s
}

/// The single flamegraph of a JVM that earlier versions wrote.
pub fn legacy_flamegraph_file_name(run_name: &str, jid: &str) -> (r: String)
    ensures
        r@ == run_name@ + "-java-flamegraph-"@ + jid@ + ".html"@,
{
    let mut s = String::new();
    push_str(&mut s, run_name);
    push_str(&mut s, "-java-flamegraph-");
    push_str(&mut s, jid);
    push_str(&mut s, ".html");
    s
}

/// The profiler data built from the recording of a JVM.
pub fn profiler_data_file_name(run_name: &str, jid: &str) -> (r: String)
    ensures
        r@ == run_name@ + "-java-profile-"@ + jid@ + "-profiler-data.json"@,
{
    let mut s = String::new();
    push_str(&mut s, run_name);
    push_str(&mut s, "-java-profile-");
    push_str(&mut s, jid);
    push_str(&mut s, "-profiler-data.json");
    s
}

/// The map from JVM process ids to names, saved at the end of a recording.
pub fn jps_map_file_name(run_name: &str) -> (r: String)
    ensures
        r@ == run_name@ + "-jps-map.json"@,
{
    let mut s = String::new();
    push_str(&mut s, run_name);
    push_str(&mut s, "-jps-map.json");
    s
}

/// The title of a graph of a JVM.
pub fn jvm_graph_title(metric: &str, jvm_name: &str) -> (r: String)
    ensures
        r@ == "("@ + metric@ + ") JVM: "@ + jvm_name@,
{
    let mut s = String::new();
    push_str(&mut s, "(");
    push_str(&mut s, metric);
    push_str(&mut s, ") JVM: ");
    push_str(&mut s, jvm_name);
    s
}


// ------------------------------------------------------------------------------------------
// Profiling requests
// ------------------------------------------------------------------------------------------

/// The process ids that the names or ids `args` select, in order: for each one that `jps`
/// listed, the ids whose first name or id it is (see `jids_of`).
pub open spec fn args_jids(m: ProcessMapView, args: Seq<Seq<char>>, jps: Seq<Seq<char>>) -> Seq<Seq<char>>
    decreases args.len(),
{
    if args.len() == 0 {
        Seq::empty()
    } else {
        let before = args_jids(m, args.drop_last(), jps);
        if jps.contains(args.last()) {
            before + jids_of(m, args.last())
        } else {
            before
        }
    }
}

/// The process ids that a profiling request selects, before sorting: every id in the map
/// for "jps"; otherwise those that its comma-separated names or ids select.
pub open spec fn requested_jid_list(m: ProcessMapView, request: Seq<char>, jps: Seq<Seq<char>>) -> Seq<Seq<char>> {
    if request == "jps"@ {
        m.map_values(|e: (Seq<char>, Seq<Seq<char>>)| e.0)
    } else {
        args_jids(m, split(request, ','), jps)
    }
}

fn listed_in(words: &Vec<String>, w: &str) -> (r: bool)
    ensures
        r == strs_view(words@).contains(w@),
{
    let mut i: usize = 0;
    while i < words.len()
        invariant
            i <= words@.len(),
            forall|j: int| 0 <= j < i ==> (#[trigger] words@[j])@ != w@,
        decreases words.len() - i,
    {
        if str_eq(words[i].as_str(), w) {
            assert(strs_view(words@)[i as int] == w@);
            return true;
        }
        i = i + 1;
    }
    assert forall|j: int| 0 <= j < strs_view(words@).len() implies strs_view(words@)[j] != w@ by {
        assert(strs_view(words@)[j] == words@[j]@);
    }
    false
}

impl JavaProfileRaw {
    /// The process ids to profile for a request (the value given for Java profiling):
    /// those that `requested_jid_list` selects, given the output of `jps`, sorted and each
    /// once.
    pub fn requested_jids(&self, request: &str, jps_output: &str) -> (r: Vec<String>)
        requires
            self.wf(),
        ensures
            strictly_sorted(strs_view(r@)),
            forall|x: Seq<char>|
                strs_view(r@).contains(x) <==> requested_jid_list(self@, request@, words(jps_output@)).contains(x),
    {
        let jids = if str_eq(request, "jps") {
            let all = self.pids();
            assert(strs_view(all@) == requested_jid_list(self@, request@, words(jps_output@)));
            all
        } else {
            let jps = words_of(jps_output);
            let v = chars_of(request);
            let rs = split_ranges(&v, 0, v.len(), ',');
            assert(v@.subrange(0, v@.len() as int) =~= v@);
            let ghost args = split(request@, ',');
            let ghost m = self@;
            let mut out: Vec<String> = Vec::new();
            let mut i: usize = 0;
            assert(args.take(0) =~= Seq::<Seq<char>>::empty());
            while i < rs.len()
                invariant
                    self.wf(),
                    m == self@,
                    v@ == request@,
                    args == split(request@, ','),
                    pieces(v@, rs@) == args,
                    ranges_within(rs@, 0, v@.len() as int),
                    strs_view(jps@) == words(jps_output@),
                    i <= rs@.len(),
                    strs_view(out@) == args_jids(m, args.take(i as int), words(jps_output@)),
                decreases rs.len() - i,
            {
                let (a, b) = rs[i];
                assert(rs@[i as int] == (a, b));
                let arg = string_of(&v, a, b);
                assert(arg@ == args[i as int]);
                assert(args.take(i + 1).drop_last() =~= args.take(i as int));
                assert(args.take(i + 1).last() == args[i as int]);
                if listed_in(&jps, arg.as_str()) {
                    let found = self.get_jids(arg.as_str());
                    let ghost before = strs_view(out@);
                    let mut k: usize = 0;
                    while k < found.len()
                        invariant
                            k <= found@.len(),
                            strs_view(out@) == before + strs_view(found@).take(k as int),
                        decreases found.len() - k,
                    {
                        let c = found[k].clone();
                        assert(c@ == found@[k as int]@);
                        let ghost prev = out@;
                        out.push(c);
                        assert(strs_view(out@) =~= strs_view(prev).push(c@));
                        assert(strs_view(found@).take(k + 1) =~= strs_view(found@).take(k as int).push(found@[k as int]@));
                        assert(strs_view(out@) =~= before + strs_view(found@).take(k + 1));
                        k = k + 1;
                    }
                    assert(strs_view(found@).take(found@.len() as int) =~= strs_view(found@));
                    assert(strs_view(found@) == jids_of(m, arg@));
                }
                i = i + 1;
            }
            assert(args.take(args.len() as int) =~= args);
            assert(request@ != "jps"@);
            out
        };
        sorted_unique(jids)
    }
}

/// The arguments of `asprof` that profile one JVM for `duration_secs` seconds into a JFR
/// file: CPU, allocation (every 2 MB) and wall-clock (every 100 ms) samples, with native
/// stacks walked by the VM and vtable targets shown.
pub open spec fn asprof_arg_list(duration_secs: nat, jfr_path: Seq<char>, jid: Seq<char>) -> Seq<Seq<char>> {
    seq![
        "-d"@, decimal(duration_secs), "-o"@, "jfr"@, "-e"@, "cpu"@, "--alloc"@, "2m"@, "--wall"@,
        "100ms"@, "--cstack"@, "vm"@, "-F"@, "vtable"@, "-f"@, jfr_path, jid,
    ]
}

/// The arguments of `asprof` for one JVM (see `asprof_arg_list`).
pub fn asprof_args(duration_secs: u64, jfr_path: &str, jid: &str) -> (r: Vec<String>)
    ensures
        strs_view(r@) == asprof_arg_list(duration_secs as nat, jfr_path@, jid@),
{
    let mut d = String::new();
    push_decimal(&mut d, duration_secs);
    let r = vec![
        "-d".to_string(), d, "-o".to_string(), "jfr".to_string(), "-e".to_string(), "cpu".to_string(),
        "--alloc".to_string(), "2m".to_string(), "--wall".to_string(), "100ms".to_string(),
        "--cstack".to_string(), "vm".to_string(), "-F".to_string(), "vtable".to_string(), "-f".to_string(),
        jfr_path.to_string(), jid.to_string(),
    ];
    assert(strs_view(r@) =~= asprof_arg_list(duration_secs as nat, jfr_path@, jid@));
    r
}

} // verus!

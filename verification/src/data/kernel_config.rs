//! Kernel configuration: the lines of the kernel's build configuration read into groups of
//! entries under their headings, and those groups flattened into named key-value groups.
use crate::data::sysctl::{contains_text, str_contains};
use crate::text::{
    chars_of, find_char, index_of_char, lines, lines_of, push_str, str_eq, str_starts_with, string_of, strs_view,
};
use vstd::prelude::*;

verus! {

/// A line of the configuration read as an entry, or a group nested in another.
#[derive(Debug)]
pub enum Entry {
    ConfigEntry(KernelConfigEntry),
    ConfigGroup(KernelConfigEntryGroup),
}

/// One configuration option and its value.
#[derive(Debug, Clone)]
pub struct KernelConfigEntry {
    pub name: String,
    pub value: String,
}

/// The entries under one heading of the configuration.
#[derive(Debug)]
pub struct KernelConfigEntryGroup {
    pub name: String,
    pub entries: Vec<Entry>,
}

/// What an entry holds: an option's name and value, or a nested group.
pub enum EntryView {
    Config(Seq<char>, Seq<char>),
    Group(GroupView),
}

/// What a group holds: its name and its entries in order.
pub struct GroupView {
    pub name: Seq<char>,
    pub entries: Seq<EntryView>,
}

pub open spec fn entry_view(e: Entry) -> EntryView
    decreases e, 0int,
{
    match e {
        Entry::ConfigEntry(c) => EntryView::Config(c.name@, c.value@),
        Entry::ConfigGroup(g) => EntryView::Group(group_view(g)),
    }
}

pub open spec fn group_view(g: KernelConfigEntryGroup) -> GroupView
    decreases g, 1int,
{
    GroupView { name: g.name@, entries: entries_view(g.entries@) }
}

pub open spec fn entries_view(s: Seq<Entry>) -> Seq<EntryView>
    decreases s, 2int,
{
    if s.len() == 0 {
        Seq::empty()
    } else {
        proof {
            vstd::seq::axiom_seq_subrange_decreases(s, 0, s.len() - 1);
        }
        entries_view(s.drop_last()).push(entry_view(s.last()))
    }
}

proof fn lemma_entries_view(s: Seq<Entry>)
    ensures
        entries_view(s).len() == s.len(),
        forall|i: int| 0 <= i < s.len() ==> #[trigger] entries_view(s)[i] == entry_view(s[i]),
    decreases s.len(),
{
    if s.len() > 0 {
        lemma_entries_view(s.drop_last());
    }
}

proof fn lemma_entries_view_ext(s: Seq<Entry>, t: Seq<Entry>)
    requires
        s.len() == t.len(),
        forall|i: int| 0 <= i < s.len() ==> entry_view(#[trigger] s[i]) == entry_view(t[i]),
    ensures
        entries_view(s) == entries_view(t),
{
    lemma_entries_view(s);
    lemma_entries_view(t);
    assert(entries_view(s) =~= entries_view(t));
}

/// A copy of an entry, nested groups included.
pub fn copy_entry(e: &Entry) -> (r: Entry)
    ensures
        entry_view(r) == entry_view(*e),
    decreases *e, 0int,
{
    match e {
        Entry::ConfigEntry(c) => Entry::ConfigEntry(
            KernelConfigEntry { name: c.name.clone(), value: c.value.clone() },
        ),
        Entry::ConfigGroup(g) => Entry::ConfigGroup(copy_group(g)),
    }
}

/// A copy of a group, nested groups included.
pub fn copy_group(g: &KernelConfigEntryGroup) -> (r: KernelConfigEntryGroup)
    ensures
        group_view(r) == group_view(*g),
    decreases *g, 1int,
{
    let mut entries: Vec<Entry> = Vec::new();
    let mut i: usize = 0;
    while i < g.entries.len()
        invariant
            0 <= i <= g.entries@.len(),
            entries@.len() == i,
            forall|k: int| 0 <= k < i ==> entry_view(#[trigger] entries@[k]) == entry_view(g.entries@[k]),
        decreases g.entries.len() - i,
    {
        proof {
            assert(decreases_to!(g.entries@ => g.entries@[i as int]));
        }
        let e = copy_entry(&g.entries[i]);
        entries.push(e);
        i = i + 1;
    }
    proof {
        lemma_entries_view_ext(entries@, g.entries@);
    }
    KernelConfigEntryGroup { name: g.name.clone(), entries }
}

// ------------------------------------------------------------------------------------------
// Reading the configuration's lines into groups
// ------------------------------------------------------------------------------------------

pub open spec fn groups_view(s: Seq<KernelConfigEntryGroup>) -> Seq<GroupView> {
    s.map_values(|g: KernelConfigEntryGroup| group_view(g))
}

/// A comment line that belongs to a heading: it starts with '#' and is none of the comments
/// "... is not set", "NOTE ...", "... also be needed ..." and "end of ...".
pub open spec fn is_comment_line(l: Seq<char>) -> bool {
    &&& "#"@.is_prefix_of(l)
    &&& !contains_text(l, "is not set"@)
    &&& !contains_text(l, "NOTE"@)
    &&& !contains_text(l, "also be needed"@)
    &&& !contains_text(l, "end of"@)
}

/// The text after the first `n` spaces of a line, or after its last space where it has
/// fewer (the last piece of splitting at the first `n` spaces).
pub open spec fn after_spaces(s: Seq<char>, n: nat) -> Seq<char>
    decreases n,
{
    if n == 0 {
        s
    } else {
        let p = index_of_char(s, ' ');
        if p < 0 {
            s
        } else {
            after_spaces(s.subrange(p + 1, s.len() as int), (n - 1) as nat)
        }
    }
}

/// The group that a heading opens: the heading line without its first two characters.
pub open spec fn heading_group(l: Seq<char>) -> GroupView {
    GroupView { name: l.subrange(2, l.len() as int), entries: Seq::empty() }
}

/// The option set on a line: its name before the first '=' and its value after it.
pub open spec fn option_entry(l: Seq<char>) -> EntryView {
    let p = index_of_char(l, '=');
    EntryView::Config(l.subrange(0, p), l.subrange(p + 1, l.len() as int))
}

/// The option of a line "# NAME is not set": the text between its first and second space.
pub open spec fn not_set_entry(l: Seq<char>) -> EntryView {
    let rest = after_spaces(l, 1);
    let p = index_of_char(rest, ' ');
    EntryView::Config(if p < 0 { rest } else { rest.subrange(0, p) }, "not set"@)
}

/// The groups after adding an entry to the `j`-th.
pub open spec fn add_to_group(gs: Seq<GroupView>, j: int, e: EntryView) -> Seq<GroupView> {
    gs.update(j, GroupView { name: gs[j].name, entries: gs[j].entries.push(e) })
}

/// Walks the groups from the `i`-th on: a group named `name` becomes the current one, and
/// each other group after a current one is added to it as a nested group (as it was before
/// the walk). Gives the groups and the index of the last group named `name` (or `cur`).
pub open spec fn nest_from(snap: Seq<GroupView>, name: Seq<char>, i: nat, cur: int, acc: Seq<GroupView>) -> (Seq<GroupView>, int)
    decreases snap.len() - i,
{
    if i >= snap.len() {
        (acc, cur)
    } else if snap[i as int].name == name {
        nest_from(snap, name, i + 1, i as int, acc)
    } else if cur >= 0 {
        nest_from(snap, name, i + 1, cur, add_to_group(acc, cur, EntryView::Group(snap[i as int])))
    } else {
        nest_from(snap, name, i + 1, cur, acc)
    }
}

/// The groups after a line "# end of NAME": unchanged when the last group is NAME; else the
/// groups after each group named NAME are nested in it, and those after the last such
/// group are dropped from the top level.
pub open spec fn close_group(gs: Seq<GroupView>, name: Seq<char>) -> Seq<GroupView> {
    if gs.last().name == name {
        gs
    } else {
        let (acc, cur) = nest_from(gs, name, 0, -1, gs);
        if cur >= 0 {
            acc.take(cur + 1)
        } else {
            acc
        }
    }
}

/// The groups read so far and the comment lines since the last other line.
pub type ConfigState = (Seq<GroupView>, Seq<Seq<char>>);

/// Reads one line: a heading comment is kept; any other line first opens the group of the
/// heading when exactly three comment lines came before it, then adds the option it sets
/// (a '='), the option it leaves unset ("is not set"), and closes the group it ends
/// ("end of").
pub open spec fn config_step(st: ConfigState, l: Seq<char>) -> ConfigState {
    if is_comment_line(l) {
        (st.0, st.1.push(l))
    } else {
        let g1 = if st.1.len() == 3 {
            st.0.push(heading_group(st.1[1]))
        } else {
            st.0
        };
        let g2 = if index_of_char(l, '=') >= 0 {
            add_to_group(g1, g1.len() - 1, option_entry(l))
        } else {
            g1
        };
        let g3 = if contains_text(l, "is not set"@) {
            add_to_group(g2, g2.len() - 1, not_set_entry(l))
        } else {
            g2
        };
        let g4 = if contains_text(l, "end of"@) {
            close_group(g3, after_spaces(l, 3))
        } else {
            g3
        };
        (g4, Seq::empty())
    }
}

/// The state after the first `k` lines, starting from one unnamed group.
pub open spec fn config_state(ls: Seq<Seq<char>>, k: nat) -> ConfigState
    decreases k,
{
    if k == 0 {
        (seq![GroupView { name: Seq::empty(), entries: Seq::empty() }], Seq::empty())
    } else {
        config_step(config_state(ls, (k - 1) as nat), ls[k - 1])
    }
}

/// The groups of a configuration.
pub open spec fn kernel_config_groups(ls: Seq<Seq<char>>) -> Seq<GroupView> {
    config_state(ls, ls.len()).0
}

/// The `i`-th line starts a run of exactly three comment lines that a line ends, so that
/// the second of them names a group.
pub open spec fn opens_heading(ls: Seq<Seq<char>>, i: int) -> bool {
    &&& 0 <= i
    &&& i + 3 < ls.len()
    &&& (i == 0 || !is_comment_line(ls[i - 1]))
    &&& is_comment_line(ls[i])
    &&& is_comment_line(ls[i + 1])
    &&& is_comment_line(ls[i + 2])
    &&& !is_comment_line(ls[i + 3])
}

/// A heading whose name can be taken from its third byte on: at least two characters, the
/// second of one byte.
pub open spec fn heading_ok(l: Seq<char>) -> bool {
    l.len() >= 2 && (l[1] as u32) < 128
}

proof fn lemma_entries_view_push(s: Seq<Entry>, e: Entry)
    ensures
        entries_view(s.push(e)) == entries_view(s).push(entry_view(e)),
{
    assert(s.push(e).drop_last() =~= s);
}

fn add_entry(groups: &mut Vec<KernelConfigEntryGroup>, e: Entry)
    requires
        old(groups)@.len() > 0,
    ensures
        groups_view(final(groups)@) == add_to_group(
            groups_view(old(groups)@),
            old(groups)@.len() - 1,
            entry_view(e),
        ),
        final(groups)@.len() == old(groups)@.len(),
{
    let ghost ev = entry_view(e);
    let mut g = groups.pop().unwrap();
    let ghost gv = group_view(g);
    let ghost before = g.entries@;
    g.entries.push(e);
    proof {
        lemma_entries_view_push(before, e);
    }
    groups.push(g);
    assert(groups_view(groups@) =~= add_to_group(
        groups_view(old(groups)@),
        old(groups)@.len() - 1,
        ev,
    ));
}

fn add_entry_at(groups: &mut Vec<KernelConfigEntryGroup>, j: usize, e: Entry)
    requires
        j < old(groups)@.len(),
    ensures
        groups_view(final(groups)@) == add_to_group(groups_view(old(groups)@), j as int, entry_view(e)),
        final(groups)@.len() == old(groups)@.len(),
{
    let ghost ev = entry_view(e);
    let mut g = groups.remove(j);
    let ghost before = g.entries@;
    g.entries.push(e);
    proof {
        lemma_entries_view_push(before, e);
    }
    groups.insert(j, g);
    assert(groups_view(groups@) =~= add_to_group(groups_view(old(groups)@), j as int, ev));
}

proof fn lemma_after_spaces_step(v: Seq<char>, lo: int, p: int, n: nat)
    requires
        0 <= lo <= p < v.len(),
        n > 0,
        index_of_char(v.subrange(lo, v.len() as int), ' ') == p - lo,
    ensures
        after_spaces(v.subrange(lo, v.len() as int), n) == after_spaces(
            v.subrange(p + 1, v.len() as int),
            (n - 1) as nat,
        ),
{
    assert(v.subrange(lo, v.len() as int).subrange(p - lo + 1, v.len() - lo) =~= v.subrange(
        p + 1,
        v.len() as int,
    ));
}

/// Where the text after the first `n` spaces of `v` starts.
fn after_spaces_start(v: &Vec<char>, n: usize) -> (r: usize)
    ensures
        r <= v@.len(),
        v@.subrange(r as int, v@.len() as int) == after_spaces(v@, n as nat),
{
    let mut lo: usize = 0;
    let mut k: usize = 0;
    assert(v@.subrange(0, v@.len() as int) =~= v@);
    while k < n
        invariant
            lo <= v@.len(),
            k <= n,
            after_spaces(v@, n as nat) == after_spaces(v@.subrange(lo as int, v@.len() as int), (n - k) as nat),
        decreases n - k,
    {
        match find_char(v, lo, v.len(), ' ') {
            Some(p) => {
                proof {
                    lemma_after_spaces_step(v@, lo as int, p as int, (n - k) as nat);
                }
                lo = p + 1;
            },
            None => {
                return lo;
            },
        }
        k = k + 1;
    }
    lo
}

fn option_entry_of(v: &Vec<char>, p: usize) -> (r: Entry)
    requires
        p < v@.len(),
        index_of_char(v@, '=') == p,
    ensures
        entry_view(r) == option_entry(v@),
{
    let n = v.len();
    Entry::ConfigEntry(KernelConfigEntry { name: string_of(v, 0, p), value: string_of(v, p + 1, n) })
}

fn not_set_entry_of(v: &Vec<char>) -> (r: Entry)
    ensures
        entry_view(r) == not_set_entry(v@),
{
    let a = after_spaces_start(v, 1);
    let ghost rest = after_spaces(v@, 1);
    let name = match find_char(v, a, v.len(), ' ') {
        Some(q) => {
            assert(v@.subrange(a as int, q as int) =~= rest.subrange(0, q - a));
            string_of(v, a, q)
        },
        None => string_of(v, a, v.len()),
    };
    Entry::ConfigEntry(KernelConfigEntry { name, value: "not set".to_string() })
}

/// Closes the group that a line "# end of NAME" ends (see `close_group`).
fn close_group_named(groups: &mut Vec<KernelConfigEntryGroup>, name: &str)
    requires
        old(groups)@.len() > 0,
    ensures
        final(groups)@.len() > 0,
        groups_view(final(groups)@) == close_group(groups_view(old(groups)@), name@),
{
    let n = groups.len();
    let ghost snapv = groups_view(groups@);
    if str_eq(groups[n - 1].name.as_str(), name) {
        assert(snapv.last() == group_view(groups@[n - 1]));
        return;
    }
    let mut snapshot: Vec<KernelConfigEntryGroup> = Vec::new();
    let mut i: usize = 0;
    while i < n
        invariant
            n == groups@.len(),
            snapv == groups_view(groups@),
            i <= n,
            snapshot@.len() == i,
            forall|k: int| 0 <= k < i ==> group_view(#[trigger] snapshot@[k]) == snapv[k],
        decreases n - i,
    {
        let c = copy_group(&groups[i]);
        snapshot.push(c);
        i = i + 1;
    }
    assert(groups_view(snapshot@) =~= snapv);
    let ghost goal = nest_from(snapv, name@, 0, -1, snapv);
    let mut cur: usize = 0;
    let mut found = false;
    i = 0;
    while i < n
        invariant
            n == groups@.len(),
            n == snapshot@.len(),
            groups_view(snapshot@) == snapv,
            i <= n,
            found ==> cur < i,
            goal == nest_from(snapv, name@, 0, -1, snapv),
            goal == nest_from(snapv, name@, i as nat, if found { cur as int } else { -1 }, groups_view(groups@)),
        decreases n - i,
    {
        assert(snapv[i as int] == group_view(snapshot@[i as int]));
        if str_eq(snapshot[i].name.as_str(), name) {
            cur = i;
            found = true;
        } else if found {
            let copy = copy_group(&snapshot[i]);
            add_entry_at(groups, cur, Entry::ConfigGroup(copy));
        }
        i = i + 1;
    }
    if found {
        let ghost acc = groups_view(groups@);
        groups.truncate(cur + 1);
        assert(groups_view(groups@) =~= acc.take(cur + 1));
    }
}

/// Reads the lines of a kernel build configuration into groups: one unnamed group first,
/// then one for each heading (a run of exactly three comment lines, named by the second),
/// each holding the options set or left unset under it, and the groups that an "end of"
/// line closes nested in the group it names.
pub fn read_kernel_config(text: &str) -> (r: Vec<KernelConfigEntryGroup>)
    requires
        forall|i: int| #[trigger] opens_heading(lines(text@), i) ==> heading_ok(lines(text@)[i + 1]),
    ensures
        r@.len() > 0,
        groups_view(r@) == kernel_config_groups(lines(text@)),
{
    let ls = lines_of(text);
    let ghost lv = lines(text@);
    let mut groups: Vec<KernelConfigEntryGroup> = Vec::new();
    groups.push(KernelConfigEntryGroup { name: String::new(), entries: Vec::new() });
    let mut comments: Vec<String> = Vec::new();
    let ghost mut start: int = 0;
    let mut k: usize = 0;
    assert(groups_view(groups@) =~= config_state(lv, 0).0);
    assert(strs_view(comments@) =~= config_state(lv, 0).1);
    while k < ls.len()
        invariant
            strs_view(ls@) == lv,
            lv == lines(text@),
            forall|i: int| #[trigger] opens_heading(lv, i) ==> heading_ok(lv[i + 1]),
            k <= ls@.len(),
            groups@.len() > 0,
            groups_view(groups@) == config_state(lv, k as nat).0,
            strs_view(comments@) == config_state(lv, k as nat).1,
            0 <= start <= k,
            strs_view(comments@) == lv.subrange(start, k as int),
            forall|j: int| start <= j < k ==> is_comment_line(#[trigger] lv[j]),
            start == 0 || !is_comment_line(lv[start - 1]),
        decreases ls.len() - k,
    {
        let line = ls[k].as_str();
        let ghost l = lv[k as int];
        assert(line@ == l);
        let ghost st = config_state(lv, k as nat);
        let comment = is_comment(line);
        if comment {
            comments.push(ls[k].clone());
            assert(strs_view(comments@) =~= st.1.push(l));
            assert(strs_view(comments@) =~= lv.subrange(start, k + 1));
        } else {
            if comments.len() == 3 {
                proof {
                    assert(strs_view(comments@).len() == 3);
                    assert(start == k - 3);
                    assert(opens_heading(lv, k - 3)) by {
                        assert(lv[k - 3] == lv.subrange(start, k as int)[0]);
                        assert(lv[k - 2] == lv.subrange(start, k as int)[1]);
                        assert(lv[k - 1] == lv.subrange(start, k as int)[2]);
                    }
                    assert(heading_ok(lv[k - 2]));
                    assert(strs_view(comments@)[1] == comments@[1]@);
                }
                let hv = chars_of(comments[1].as_str());
                let name = string_of(&hv, 2, hv.len());
                groups.push(KernelConfigEntryGroup { name, entries: Vec::new() });
                proof {
                    assert(entries_view(Seq::<Entry>::empty()) =~= Seq::<EntryView>::empty());
                    assert(groups_view(groups@) =~= st.0.push(heading_group(st.1[1])));
                }
            }
            comments = Vec::new();
            let v = chars_of(line);
            assert(v@.subrange(0, v@.len() as int) =~= v@);
            match find_char(&v, 0, v.len(), '=') {
                Some(p) => {
                    let e = option_entry_of(&v, p);
                    add_entry(&mut groups, e);
                },
                None => {},
            }
            if str_contains(line, "is not set") {
                let e = not_set_entry_of(&v);
                add_entry(&mut groups, e);
            }
            if str_contains(line, "end of") {
                let a = after_spaces_start(&v, 3);
                let name = string_of(&v, a, v.len());
                close_group_named(&mut groups, name.as_str());
            }
            proof {
                start = k + 1;
                assert(strs_view(comments@) =~= Seq::<Seq<char>>::empty());
                assert(lv.subrange(start, k + 1) =~= Seq::<Seq<char>>::empty());
            }
        }
        k = k + 1;
    }
    groups
}

fn is_comment(line: &str) -> (r: bool)
    ensures
        r == is_comment_line(line@),
{
    str_starts_with(line, "#") && !str_contains(line, "is not set") && !str_contains(line, "NOTE")
        && !str_contains(line, "also be needed") && !str_contains(line, "end of")
}

/// Whether every heading of a configuration can be read, so that `read_kernel_config`
/// accepts its text.
pub fn headings_readable(text: &str) -> (r: bool)
    ensures
        r == (forall|i: int| #[trigger] opens_heading(lines(text@), i) ==> heading_ok(lines(text@)[i + 1])),
{
    let ls = lines_of(text);
    let ghost lv = lines(text@);
    let mut flags: Vec<bool> = Vec::new();
    let mut j: usize = 0;
    while j < ls.len()
        invariant
            strs_view(ls@) == lv,
            j <= ls@.len(),
            flags@.len() == j,
            forall|k: int| 0 <= k < j ==> #[trigger] flags@[k] == is_comment_line(lv[k]),
        decreases ls.len() - j,
    {
        assert(ls@[j as int]@ == lv[j as int]);
        flags.push(is_comment(ls[j].as_str()));
        j = j + 1;
    }
    let mut i: usize = 0;
    while i < ls.len() && ls.len() - i > 3
        invariant
            i <= lv.len(),
            strs_view(ls@) == lv,
            lv == lines(text@),
            flags@.len() == lv.len(),
            forall|k: int| 0 <= k < lv.len() ==> #[trigger] flags@[k] == is_comment_line(lv[k]),
            forall|k: int| 0 <= k < i ==> #[trigger] opens_heading(lv, k) ==> heading_ok(lv[k + 1]),
        decreases ls.len() - i,
    {
        let opens = (i == 0 || !flags[i - 1]) && flags[i] && flags[i + 1] && flags[i + 2] && !flags[i + 3];
        assert(opens == opens_heading(lv, i as int));
        if opens {
            let v = chars_of(ls[i + 1].as_str());
            assert(v@ == lv[i + 1]);
            if !(v.len() >= 2 && (v[1] as u32) < 128) {
                return false;
            }
        }
        i = i + 1;
    }
    true
}

impl KernelConfigEntryGroup {
    /// An unnamed group without entries.
    pub fn new() -> (r: Self)
        ensures
            group_view(r) == (GroupView { name: Seq::empty(), entries: Seq::empty() }),
    {
        let r = KernelConfigEntryGroup { name: String::new(), entries: Vec::new() };
        assert(entries_view(r.entries@) =~= Seq::<EntryView>::empty());
        r
    }

    /// Adds an entry after the group's others.
    pub fn add_entry(&mut self, entry: Entry)
        ensures
            group_view(*final(self)) == (GroupView {
                name: group_view(*old(self)).name,
                entries: group_view(*old(self)).entries.push(entry_view(entry)),
            }),
    {
        let ghost before = self.entries@;
        self.entries.push(entry);
        proof {
            lemma_entries_view_push(before, entry);
        }
    }
}

// ------------------------------------------------------------------------------------------
// Flattening the groups into named key-value groups
// ------------------------------------------------------------------------------------------

/// A key-value group: its name and its keys with their values, in order.
pub type KeyValuesView = (Seq<char>, Seq<(Seq<char>, Seq<char>)>);

pub open spec fn pairs_view(v: Seq<(String, String)>) -> Seq<(Seq<char>, Seq<char>)> {
    v.map_values(|p: (String, String)| (p.0@, p.1@))
}

pub open spec fn key_values_view(v: Seq<(String, Vec<(String, String)>)>) -> Seq<KeyValuesView> {
    v.map_values(|e: (String, Vec<(String, String)>)| (e.0@, pairs_view(e.1@)))
}

/// The name of a group under the groups that hold it: their names and its own, joined by ':'.
pub open spec fn full_group_name(prefix: Seq<char>, name: Seq<char>) -> Seq<char> {
    if prefix.len() == 0 {
        name
    } else {
        prefix + ":"@ + name
    }
}

/// The options among some entries, in order.
pub open spec fn entry_options(es: Seq<EntryView>) -> Seq<(Seq<char>, Seq<char>)>
    decreases es.len(),
{
    if es.len() == 0 {
        Seq::empty()
    } else {
        match es.last() {
            EntryView::Config(n, v) => entry_options(es.drop_last()).push((n, v)),
            EntryView::Group(_) => entry_options(es.drop_last()),
        }
    }
}

/// A group flattened: the key-value groups of its nested groups, in order and each under
/// the group's full name, then its own options under its full name.
pub open spec fn flat_group(prefix: Seq<char>, g: GroupView) -> Seq<KeyValuesView>
    decreases g, 1int,
{
    let full = full_group_name(prefix, g.name);
    flat_entries(full, g.entries).push((full, entry_options(g.entries)))
}

/// The key-value groups of the groups nested among some entries, in order.
pub open spec fn flat_entries(full: Seq<char>, es: Seq<EntryView>) -> Seq<KeyValuesView>
    decreases es, 2int,
{
    if es.len() == 0 {
        Seq::empty()
    } else {
        proof {
            vstd::seq::axiom_seq_subrange_decreases(es, 0, es.len() - 1);
        }
        match es.last() {
            EntryView::Config(_, _) => flat_entries(full, es.drop_last()),
            EntryView::Group(c) => flat_entries(full, es.drop_last()) + flat_group(full, c),
        }
    }
}

/// The key-value groups of all groups, in order.
pub open spec fn kernel_config_key_values(gs: Seq<GroupView>) -> Seq<KeyValuesView>
    decreases gs.len(),
{
    if gs.len() == 0 {
        Seq::empty()
    } else {
        kernel_config_key_values(gs.drop_last()) + flat_group(Seq::empty(), gs.last())
    }
}

fn flatten_entry(
    full: &str,
    e: &Entry,
    kv: &mut Vec<(String, String)>,
    out: &mut Vec<(String, Vec<(String, String)>)>,
)
    ensures
        pairs_view(final(kv)@) == pairs_view(old(kv)@) + entry_options(seq![entry_view(*e)]),
        key_values_view(final(out)@) == key_values_view(old(out)@) + flat_entries(full@, seq![entry_view(*e)]),
    decreases *e, 0int,
{
    let ghost ev = seq![entry_view(*e)];
    assert(ev.drop_last() =~= Seq::<EntryView>::empty());
    assert(ev.last() == entry_view(*e));
    assert(entry_options(Seq::<EntryView>::empty()) =~= Seq::<(Seq<char>, Seq<char>)>::empty());
    assert(flat_entries(full@, Seq::<EntryView>::empty()) =~= Seq::<KeyValuesView>::empty());
    match e {
        Entry::ConfigEntry(c) => {
            let ghost item = (c.name@, c.value@);
            assert(entry_view(*e) == EntryView::Config(c.name@, c.value@));
            assert(entry_options(ev) =~= seq![item]);
            assert(flat_entries(full@, ev) =~= Seq::<KeyValuesView>::empty());
            kv.push((c.name.clone(), c.value.clone()));
            assert(pairs_view(kv@) =~= pairs_view(old(kv)@) + entry_options(ev));
            assert(key_values_view(out@) =~= key_values_view(old(out)@) + flat_entries(full@, ev));
        },
        Entry::ConfigGroup(g) => {
            assert(entry_view(*e) == EntryView::Group(group_view(*g)));
            assert(entry_options(ev) =~= Seq::<(Seq<char>, Seq<char>)>::empty());
            assert(flat_entries(full@, ev) =~= Seq::<KeyValuesView>::empty() + flat_group(full@, group_view(*g)));
            flatten_group(full, g, out);
            assert(pairs_view(kv@) =~= pairs_view(old(kv)@) + entry_options(ev));
        },
    }
}

proof fn lemma_flat_take(full: Seq<char>, es: Seq<EntryView>, i: int)
    requires
        0 <= i < es.len(),
    ensures
        entry_options(es.take(i + 1)) == entry_options(es.take(i)) + entry_options(seq![es[i]]),
        flat_entries(full, es.take(i + 1)) == flat_entries(full, es.take(i)) + flat_entries(full, seq![es[i]]),
{
    let one = seq![es[i]];
    assert(es.take(i + 1).drop_last() =~= es.take(i));
    assert(one.drop_last() =~= Seq::<EntryView>::empty());
    assert(entry_options(Seq::<EntryView>::empty()) =~= Seq::<(Seq<char>, Seq<char>)>::empty());
    assert(flat_entries(full, Seq::<EntryView>::empty()) =~= Seq::<KeyValuesView>::empty());
    match es[i] {
        EntryView::Config(n, v) => {
            assert(entry_options(one) =~= seq![(n, v)]);
            assert(entry_options(es.take(i + 1)) =~= entry_options(es.take(i)) + entry_options(one));
            assert(flat_entries(full, es.take(i + 1)) =~= flat_entries(full, es.take(i)) + flat_entries(full, one));
        },
        EntryView::Group(c) => {
            assert(entry_options(es.take(i + 1)) =~= entry_options(es.take(i)) + entry_options(one));
            assert(flat_entries(full, one) =~= Seq::<KeyValuesView>::empty() + flat_group(full, c));
            assert(flat_entries(full, es.take(i + 1)) =~= flat_entries(full, es.take(i)) + flat_entries(full, one));
        },
    }
}

/// Adds the key-value groups of a group held by the groups named `prefix` (see
/// `flat_group`).
fn flatten_group(prefix: &str, g: &KernelConfigEntryGroup, out: &mut Vec<(String, Vec<(String, String)>)>)
    ensures
        key_values_view(final(out)@) == key_values_view(old(out)@) + flat_group(prefix@, group_view(*g)),
    decreases *g, 1int,
{
    let full = if chars_of(prefix).len() == 0 {
        g.name.clone()
    } else {
        let mut s = String::new();
        push_str(&mut s, prefix);
        push_str(&mut s, ":");
        push_str(&mut s, g.name.as_str());
        assert(s@ =~= prefix@ + ":"@ + g.name@);
        s
    };
    assert(full@ == full_group_name(prefix@, g.name@));
    let ghost ev = entries_view(g.entries@);
    proof {
        lemma_entries_view(g.entries@);
    }
    let ghost start = key_values_view(out@);
    let mut kv: Vec<(String, String)> = Vec::new();
    let mut i: usize = 0;
    assert(ev.take(0) =~= Seq::<EntryView>::empty());
    assert(pairs_view(kv@) =~= entry_options(ev.take(0)));
    assert(key_values_view(out@) =~= start + flat_entries(full@, ev.take(0)));
    while i < g.entries.len()
        invariant
            ev == entries_view(g.entries@),
            ev.len() == g.entries@.len(),
            forall|k: int| 0 <= k < ev.len() ==> #[trigger] ev[k] == entry_view(g.entries@[k]),
            i <= g.entries@.len(),
            start == key_values_view(old(out)@),
            pairs_view(kv@) == entry_options(ev.take(i as int)),
            key_values_view(out@) == start + flat_entries(full@, ev.take(i as int)),
        decreases g.entries.len() - i,
    {
        proof {
            assert(decreases_to!(g.entries@ => g.entries@[i as int]));
            lemma_flat_take(full@, ev, i as int);
        }
        flatten_entry(full.as_str(), &g.entries[i], &mut kv, out);
        i = i + 1;
    }
    assert(ev.take(ev.len() as int) =~= ev);
    let ghost kvv = pairs_view(kv@);
    let ghost fullv = full@;
    let ghost prev = key_values_view(out@);
    assert(prev == start + flat_entries(fullv, ev));
    out.push((full, kv));
    assert(key_values_view(out@) =~= prev.push((fullv, kvv)));
    assert(group_view(*g).entries == ev);
    assert(flat_group(prefix@, group_view(*g)) == flat_entries(fullv, ev).push((fullv, kvv)));
    assert(key_values_view(out@) =~= start + flat_group(prefix@, group_view(*g)));
}

/// The configuration of the running kernel, read into groups.
#[derive(Debug)]
pub struct KernelConfig {
    pub kernel_config_data: Vec<KernelConfigEntryGroup>,
}

impl KernelConfig {
    /// A configuration with no groups yet.
    pub fn new() -> (r: Self)
        ensures
            r.kernel_config_data@.len() == 0,
    {
        KernelConfig { kernel_config_data: Vec::new() }
    }

    /// Reads the groups from the text of the configuration file (see `read_kernel_config`).
    pub fn collect_from_text(&mut self, text: &str)
        requires
            forall|i: int| #[trigger] opens_heading(lines(text@), i) ==> heading_ok(lines(text@)[i + 1]),
        ensures
            final(self).kernel_config_data@.len() > 0,
            groups_view(final(self).kernel_config_data@) == kernel_config_groups(lines(text@)),
    {
        self.kernel_config_data = read_kernel_config(text);
    }

    /// The configuration as key-value groups: each group under its full name, nested
    /// groups before the group that holds them, and each group's options in order. Where a
    /// name or a key occurs twice, the later one is meant to replace the earlier.
    pub fn key_value_groups(&self) -> (r: Vec<(String, Vec<(String, String)>)>)
        ensures
            key_values_view(r@) == kernel_config_key_values(groups_view(self.kernel_config_data@)),
    {
        let gs = &self.kernel_config_data;
        let mut out: Vec<(String, Vec<(String, String)>)> = Vec::new();
        let mut i: usize = 0;
        assert(key_values_view(out@) =~= kernel_config_key_values(groups_view(gs@).take(0)));
        while i < gs.len()
            invariant
                i <= gs@.len(),
                key_values_view(out@) == kernel_config_key_values(groups_view(gs@).take(i as int)),
            decreases gs.len() - i,
        {
            flatten_group("", &gs[i], &mut out);
            proof {
                let gv = groups_view(gs@);
                assert(gv.take(i + 1).drop_last() =~= gv.take(i as int));
                assert(""@ =~= Seq::<char>::empty()) by {
                    reveal_strlit("");
                }
            }
            i = i + 1;
        }
        assert(groups_view(gs@).take(gs@.len() as int) =~= groups_view(gs@));
        out
    }
}

} // verus!

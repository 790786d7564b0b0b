//! Text primitives over sequences of characters: whitespace, trimming, splitting into
//! pieces, words and lines, decimal parsing and decimal formatting. Every executable
//! function works on a `Vec<char>` (usually a range `[lo, hi)` of it) and is proved
//! against a spec function on `Seq<char>`, so the parsers built on top of it can state
//! their results over the same spec functions.
use vstd::prelude::*;

verus! {

// ------------------------------------------------------------------------------------------
// Characters
// ------------------------------------------------------------------------------------------

/// The Unicode White_Space property, as used by `char::is_whitespace` (and thus by
/// `str::trim` and `str::split_whitespace`).
pub open spec fn is_ws(c: char) -> bool {
    let u = c as u32;
    ||| 0x09 <= u <= 0x0D
    ||| u == 0x20
    ||| u == 0x85
    ||| u == 0xA0
    ||| u == 0x1680
    ||| 0x2000 <= u <= 0x200A
    ||| u == 0x2028
    ||| u == 0x2029
    ||| u == 0x202F
    ||| u == 0x205F
    ||| u == 0x3000
}

pub fn char_is_whitespace(c: char) -> (r: bool)
    ensures
        r == is_ws(c),
{
    let u = c as u32;
    (0x09 <= u && u <= 0x0D) || u == 0x20 || u == 0x85 || u == 0xA0 || u == 0x1680 || (0x2000
        <= u && u <= 0x200A) || u == 0x2028 || u == 0x2029 || u == 0x202F || u == 0x205F || u
        == 0x3000
}

pub open spec fn is_digit(c: char) -> bool {
    48 <= c as u32 <= 57
}

pub open spec fn digit_value(c: char) -> nat {
    (c as u32 - 48) as nat
}

pub open spec fn digit_char(d: nat) -> char
    recommends
        d < 10,
{
    if d == 0 {
        '0'
    } else if d == 1 {
        '1'
    } else if d == 2 {
        '2'
    } else if d == 3 {
        '3'
    } else if d == 4 {
        '4'
    } else if d == 5 {
        '5'
    } else if d == 6 {
        '6'
    } else if d == 7 {
        '7'
    } else if d == 8 {
        '8'
    } else {
        '9'
    }
}

fn exec_digit_char(d: usize) -> (c: char)
    requires
        d < 10,
    ensures
        c == digit_char(d as nat),
        is_digit(c),
        digit_value(c) == d,
{
    if d == 0 {
        '0'
    } else if d == 1 {
        '1'
    } else if d == 2 {
        '2'
    } else if d == 3 {
        '3'
    } else if d == 4 {
        '4'
    } else if d == 5 {
        '5'
    } else if d == 6 {
        '6'
    } else if d == 7 {
        '7'
    } else if d == 8 {
        '8'
    } else {
        '9'
    }
}

// ------------------------------------------------------------------------------------------
// Conversions between strings and character vectors
// ------------------------------------------------------------------------------------------

/// Appends one character to a string (`String::push`).
#[verifier::external_body]
pub fn push_char(s: &mut String, c: char)
    ensures
        final(s)@ == old(s)@.push(c),
{
    s.push(c);
}

/// The characters of a string slice, in order.
pub fn chars_of(s: &str) -> (v: Vec<char>)
    ensures
        v@ == s@,
{
    let mut v: Vec<char> = Vec::new();
    for c in it: s.chars()
        invariant
            v@ == it.seq().subrange(0, it.index() as int),
            it.seq() == s@,
    {
        v.push(c);
    }
    v
}

/// The string made of the characters `v[lo..hi]`.
pub fn string_of(v: &Vec<char>, lo: usize, hi: usize) -> (s: String)
    requires
        lo <= hi <= v.len(),
    ensures
        s@ == v@.subrange(lo as int, hi as int),
{
    let mut s = String::new();
    let mut i = lo;
    while i < hi
        invariant
            lo <= i <= hi <= v.len(),
            s@ == v@.subrange(lo as int, i as int),
        decreases hi - i,
    {
        push_char(&mut s, v[i]);
        i = i + 1;
        assert(s@ =~= v@.subrange(lo as int, i as int));
    }
    s
}

/// Appends `v[lo..hi]` to a string.
pub fn push_range(s: &mut String, v: &Vec<char>, lo: usize, hi: usize)
    requires
        lo <= hi <= v.len(),
    ensures
        final(s)@ == old(s)@ + v@.subrange(lo as int, hi as int),
{
    let mut i = lo;
    while i < hi
        invariant
            lo <= i <= hi <= v.len(),
            s@ == old(s)@ + v@.subrange(lo as int, i as int),
        decreases hi - i,
    {
        push_char(s, v[i]);
        i = i + 1;
        assert(s@ =~= old(s)@ + v@.subrange(lo as int, i as int));
    }
}

/// Appends a string slice to a string.
pub fn push_str(s: &mut String, t: &str)
    ensures
        final(s)@ == old(s)@ + t@,
{
    let v = chars_of(t);
    push_range(s, &v, 0, v.len());
    assert(v@.subrange(0, v@.len() as int) =~= v@);
}

/// Whether `v[lo..hi]` holds exactly the characters of `t`.
pub fn range_eq(v: &Vec<char>, lo: usize, hi: usize, t: &Vec<char>) -> (r: bool)
    requires
        lo <= hi <= v.len(),
    ensures
        r == (v@.subrange(lo as int, hi as int) == t@),
{
    if hi - lo != t.len() {
        return false;
    }
    let mut i: usize = 0;
    while i < t.len()
        invariant
            lo <= hi <= v.len(),
            hi - lo == t.len(),
            0 <= i <= t.len(),
            forall|j: int| 0 <= j < i ==> v@[lo + j] == t@[j],
        decreases t.len() - i,
    {
        if v[lo + i] != t[i] {
            assert(v@.subrange(lo as int, hi as int)[i as int] != t@[i as int]);
            return false;
        }
        i = i + 1;
    }
    assert(v@.subrange(lo as int, hi as int) =~= t@);
    true
}

/// Whether two strings hold the same characters.
pub fn str_eq(a: &str, b: &str) -> (r: bool)
    ensures
        r == (a@ == b@),
{
    let va = chars_of(a);
    let vb = chars_of(b);
    let r = range_eq(&va, 0, va.len(), &vb);
    assert(va@.subrange(0, va@.len() as int) =~= va@);
    r
}

// ------------------------------------------------------------------------------------------
// Trimming
// ------------------------------------------------------------------------------------------

pub open spec fn trim_start(s: Seq<char>) -> Seq<char>
    decreases s.len(),
{
    if s.len() > 0 && is_ws(s[0]) {
        trim_start(s.drop_first())
    } else {
        s
    }
}

pub open spec fn trim_end(s: Seq<char>) -> Seq<char>
    decreases s.len(),
{
    if s.len() > 0 && is_ws(s.last()) {
        trim_end(s.drop_last())
    } else {
        s
    }
}

/// `str::trim`: the sequence without its leading and trailing whitespace.
pub open spec fn trim(s: Seq<char>) -> Seq<char> {
    trim_end(trim_start(s))
}

proof fn lemma_trim_start_skip(s: Seq<char>, k: int)
    requires
        0 <= k <= s.len(),
        forall|j: int| 0 <= j < k ==> is_ws(#[trigger] s[j]),
        k == s.len() || !is_ws(s[k]),
    ensures
        trim_start(s) == s.subrange(k, s.len() as int),
    decreases k,
{
    if k == 0 {
        assert(s.subrange(0, s.len() as int) =~= s);
    } else {
        let t = s.drop_first();
        assert forall|j: int| 0 <= j < k - 1 implies is_ws(#[trigger] t[j]) by {
            assert(t[j] == s[j + 1]);
        }
        assert(k - 1 == t.len() || t[k - 1] == s[k]);
        lemma_trim_start_skip(t, k - 1);
        assert(t.subrange(k - 1, t.len() as int) =~= s.subrange(k, s.len() as int));
    }
}

proof fn lemma_trim_end_skip(s: Seq<char>, k: int)
    requires
        0 <= k <= s.len(),
        forall|j: int| k <= j < s.len() ==> is_ws(#[trigger] s[j]),
        k == 0 || !is_ws(s[k - 1]),
    ensures
        trim_end(s) == s.subrange(0, k),
    decreases s.len() - k,
{
    if k == s.len() {
        assert(s.subrange(0, k) =~= s);
    } else {
        let t = s.drop_last();
        assert forall|j: int| k <= j < t.len() implies is_ws(#[trigger] t[j]) by {
            assert(t[j] == s[j]);
        }
        assert(k == 0 || t[k - 1] == s[k - 1]);
        lemma_trim_end_skip(t, k);
        assert(t.subrange(0, k) =~= s.subrange(0, k));
    }
}

/// The bounds of `trim(v[lo..hi])` within `v`.
pub fn trim_bounds(v: &Vec<char>, lo: usize, hi: usize) -> (r: (usize, usize))
    requires
        lo <= hi <= v.len(),
    ensures
        lo <= r.0 <= r.1 <= hi,
        v@.subrange(r.0 as int, r.1 as int) == trim(v@.subrange(lo as int, hi as int)),
{
    let ghost s = v@.subrange(lo as int, hi as int);
    let mut a = lo;
    while a < hi && char_is_whitespace(v[a])
        invariant
            lo <= a <= hi <= v.len(),
            s == v@.subrange(lo as int, hi as int),
            forall|j: int| lo <= j < a ==> is_ws(#[trigger] v@[j]),
        decreases hi - a,
    {
        a = a + 1;
    }
    proof {
        assert forall|j: int| 0 <= j < a - lo implies is_ws(#[trigger] s[j]) by {
            assert(s[j] == v@[lo + j]);
        }
        if a < hi {
            assert(s[a - lo] == v@[a as int]);
        }
        lemma_trim_start_skip(s, a - lo);
    }
    let ghost t = s.subrange(a - lo, s.len() as int);
    assert(t =~= v@.subrange(a as int, hi as int));
    let mut b = hi;
    while b > a && char_is_whitespace(v[b - 1])
        invariant
            lo <= a <= b <= hi <= v.len(),
            forall|j: int| b <= j < hi ==> is_ws(#[trigger] v@[j]),
        decreases b - a,
    {
        b = b - 1;
    }
    proof {
        assert forall|j: int| b - a <= j < t.len() implies is_ws(#[trigger] t[j]) by {
            assert(t[j] == v@[a + j]);
        }
        if b > a {
            assert(t[b - a - 1] == v@[b - 1]);
        }
        lemma_trim_end_skip(t, b - a);
        assert(t.subrange(0, b - a) =~= v@.subrange(a as int, b as int));
    }
    (a, b)
}

/// The end of `trim_end(v[lo..hi])` within `v`.
pub fn trim_end_bound(v: &Vec<char>, lo: usize, hi: usize) -> (r: usize)
    requires
        lo <= hi <= v.len(),
    ensures
        lo <= r <= hi,
        v@.subrange(lo as int, r as int) == trim_end(v@.subrange(lo as int, hi as int)),
{
    let ghost t = v@.subrange(lo as int, hi as int);
    let mut b = hi;
    while b > lo && char_is_whitespace(v[b - 1])
        invariant
            lo <= b <= hi <= v.len(),
            forall|j: int| b <= j < hi ==> is_ws(#[trigger] v@[j]),
        decreases b - lo,
    {
        b = b - 1;
    }
    proof {
        assert forall|j: int| b - lo <= j < t.len() implies is_ws(#[trigger] t[j]) by {
            assert(t[j] == v@[lo + j]);
        }
        if b > lo {
            assert(t[b - lo - 1] == v@[b - 1]);
        }
        lemma_trim_end_skip(t, b - lo);
        assert(t.subrange(0, b - lo) =~= v@.subrange(lo as int, b as int));
    }
    b
}

// ------------------------------------------------------------------------------------------
// Splitting
// ------------------------------------------------------------------------------------------

/// The pieces of a range list: `rs[i]` picks `s[rs[i].0 .. rs[i].1]`.
pub open spec fn pieces(s: Seq<char>, rs: Seq<(usize, usize)>) -> Seq<Seq<char>> {
    rs.map_values(|r: (usize, usize)| s.subrange(r.0 as int, r.1 as int))
}

/// `str::split(c)`: the pieces between the occurrences of `c` (always at least one piece).
pub open spec fn split(s: Seq<char>, c: char) -> Seq<Seq<char>>
    decreases s.len(),
{
    if s.len() == 0 {
        seq![Seq::<char>::empty()]
    } else {
        let p = split(s.drop_last(), c);
        if s.last() == c {
            p.push(Seq::<char>::empty())
        } else {
            p.update(p.len() - 1, p.last().push(s.last()))
        }
    }
}

pub proof fn lemma_split_nonempty(s: Seq<char>, c: char)
    ensures
        split(s, c).len() >= 1,
    decreases s.len(),
{
    if s.len() > 0 {
        lemma_split_nonempty(s.drop_last(), c);
    }
}

/// Well-formed ranges of a sequence: ascending, non-overlapping, in bounds.
pub open spec fn ranges_within(rs: Seq<(usize, usize)>, lo: int, hi: int) -> bool {
    &&& forall|i: int| 0 <= i < rs.len() ==> lo <= (#[trigger] rs[i]).0 <= rs[i].1 <= hi
}

/// The ranges of `split(v[lo..hi], c)` within `v`.
pub fn split_ranges(v: &Vec<char>, lo: usize, hi: usize, c: char) -> (rs: Vec<(usize, usize)>)
    requires
        lo <= hi <= v.len(),
    ensures
        pieces(v@, rs@) == split(v@.subrange(lo as int, hi as int), c),
        ranges_within(rs@, lo as int, hi as int),
        rs@.len() >= 1,
{
    let mut done: Vec<(usize, usize)> = Vec::new();
    let mut start = lo;
    let mut i = lo;
    proof {
        assert(v@.subrange(lo as int, lo as int) =~= Seq::<char>::empty());
        assert(pieces(v@, done@) + seq![v@.subrange(start as int, i as int)] =~= seq![
            Seq::<char>::empty(),
        ]);
    }
    while i < hi
        invariant
            lo <= start <= i <= hi <= v.len(),
            ranges_within(done@, lo as int, start as int),
            split(v@.subrange(lo as int, i as int), c) == pieces(v@, done@) + seq![
                v@.subrange(start as int, i as int),
            ],
        decreases hi - i,
    {
        let ghost prev = v@.subrange(lo as int, i as int);
        let ghost next = v@.subrange(lo as int, i + 1);
        assert(next.drop_last() =~= prev);
        assert(next.last() == v@[i as int]);
        if v[i] == c {
            let ghost old_done = done@;
            done.push((start, i));
            assert(pieces(v@, done@) =~= pieces(v@, old_done) + seq![
                v@.subrange(start as int, i as int),
            ]);
            start = i + 1;
            i = i + 1;
            assert(v@.subrange(start as int, i as int) =~= Seq::<char>::empty());
            assert(pieces(v@, done@) + seq![v@.subrange(start as int, i as int)] =~= split(
                prev,
                c,
            ).push(Seq::<char>::empty()));
        } else {
            i = i + 1;
            assert(v@.subrange(start as int, i as int) =~= v@.subrange(start as int, i - 1).push(
                v@[i - 1],
            ));
            assert(pieces(v@, done@) + seq![v@.subrange(start as int, i as int)] =~= split(
                prev,
                c,
            ).update(split(prev, c).len() - 1, split(prev, c).last().push(v@[i - 1])));
        }
    }
    done.push((start, hi));
    assert(pieces(v@, done@) =~= pieces(v@, done@.drop_last()) + seq![
        v@.subrange(start as int, hi as int),
    ]);
    done
}

/// `str::split_whitespace`: the maximal runs of non-whitespace characters.
pub open spec fn words(s: Seq<char>) -> Seq<Seq<char>>
    decreases s.len(),
{
    if s.len() == 0 {
        Seq::empty()
    } else {
        let w = words(s.drop_last());
        if is_ws(s.last()) {
            w
        } else if s.len() >= 2 && !is_ws(s[s.len() - 2]) {
            w.update(w.len() - 1, w.last().push(s.last()))
        } else {
            w.push(seq![s.last()])
        }
    }
}

/// The ranges of `words(v[lo..hi])` within `v`.
pub fn word_ranges(v: &Vec<char>, lo: usize, hi: usize) -> (rs: Vec<(usize, usize)>)
    requires
        lo <= hi <= v.len(),
    ensures
        pieces(v@, rs@) == words(v@.subrange(lo as int, hi as int)),
        ranges_within(rs@, lo as int, hi as int),
        forall|i: int| 0 <= i < rs@.len() ==> (#[trigger] rs@[i]).0 < rs@[i].1,
{
    let mut done: Vec<(usize, usize)> = Vec::new();
    let mut in_word = false;
    let mut start = lo;
    let mut i = lo;
    proof {
        assert(v@.subrange(lo as int, lo as int) =~= Seq::<char>::empty());
        assert(pieces(v@, done@) =~= Seq::<Seq<char>>::empty());
    }
    while i < hi
        invariant
            lo <= start <= i <= hi <= v.len(),
            ranges_within(done@, lo as int, i as int),
            forall|k: int| 0 <= k < done@.len() ==> (#[trigger] done@[k]).0 < done@[k].1,
            in_word ==> start < i && !is_ws(v@[i - 1]),
            !in_word ==> (i == lo || is_ws(v@[i - 1])),
            in_word ==> words(v@.subrange(lo as int, i as int)) == pieces(v@, done@) + seq![
                v@.subrange(start as int, i as int),
            ],
            !in_word ==> words(v@.subrange(lo as int, i as int)) == pieces(v@, done@),
            in_word ==> (forall|k: int| 0 <= k < done@.len() ==> (#[trigger] done@[k]).1 <= start),
        decreases hi - i,
    {
        let ghost prev = v@.subrange(lo as int, i as int);
        let ghost next = v@.subrange(lo as int, i + 1);
        assert(next.drop_last() =~= prev);
        assert(next.last() == v@[i as int]);
        let ws = char_is_whitespace(v[i]);
        if ws {
            if in_word {
                done.push((start, i));
                assert(pieces(v@, done@) =~= pieces(v@, done@.drop_last()) + seq![
                    v@.subrange(start as int, i as int),
                ]);
            }
            in_word = false;
            i = i + 1;
        } else {
            if in_word {
                assert(next.len() >= 2 && next[next.len() - 2] == v@[i - 1]);
                i = i + 1;
                assert(v@.subrange(start as int, i as int) =~= v@.subrange(
                    start as int,
                    i - 1,
                ).push(v@[i - 1]));
                assert(pieces(v@, done@) + seq![v@.subrange(start as int, i as int)] =~= words(
                    prev,
                ).update(words(prev).len() - 1, words(prev).last().push(v@[i - 1])));
            } else {
                assert(next.len() < 2 || next[next.len() - 2] == v@[i - 1]);
                start = i;
                in_word = true;
                i = i + 1;
                assert(v@.subrange(start as int, i as int) =~= seq![v@[i - 1]]);
                assert(pieces(v@, done@) + seq![v@.subrange(start as int, i as int)] =~= words(
                    prev,
                ).push(seq![v@[i - 1]]));
            }
        }
    }
    if in_word {
        done.push((start, hi));
        assert(pieces(v@, done@) =~= pieces(v@, done@.drop_last()) + seq![
            v@.subrange(start as int, hi as int),
        ]);
    }
    done
}

/// Splitting a sequence that ends with the separator, extended by more text.
pub proof fn lemma_split_append(s: Seq<char>, t: Seq<char>, c: char)
    requires
        s.len() > 0,
        s.last() == c,
    ensures
        split(s + t, c) == split(s, c).drop_last() + split(t, c),
    decreases t.len(),
{
    lemma_split_nonempty(s.drop_last(), c);
    if t.len() == 0 {
        assert(s + t =~= s);
        assert(split(s, c).last() == Seq::<char>::empty());
        assert(split(s, c).drop_last() + split(t, c) =~= split(s, c));
    } else {
        let t2 = t.drop_last();
        lemma_split_append(s, t2, c);
        lemma_split_nonempty(t2, c);
        assert((s + t).drop_last() =~= s + t2);
        assert((s + t).last() == t.last());
        let a = split(s, c).drop_last();
        let b = split(t2, c);
        if t.last() == c {
            assert((a + b).push(Seq::<char>::empty()) =~= a + b.push(Seq::<char>::empty()));
        } else {
            assert((a + b).update((a + b).len() - 1, (a + b).last().push(t.last())) =~= a + b.update(
                b.len() - 1,
                b.last().push(t.last()),
            ));
        }
    }
}

/// A sequence without the separator is one piece.
pub proof fn lemma_split_without(s: Seq<char>, c: char)
    requires
        forall|i: int| 0 <= i < s.len() ==> s[i] != c,
    ensures
        split(s, c) == seq![s],
    decreases s.len(),
{
    if s.len() > 0 {
        let t = s.drop_last();
        assert forall|i: int| 0 <= i < t.len() implies t[i] != c by {
            assert(t[i] == s[i]);
        }
        lemma_split_without(t, c);
        assert(t.push(s.last()) =~= s);
        assert(seq![t].update(0, t.push(s.last())) =~= seq![s]);
    } else {
        assert(s =~= Seq::<char>::empty());
    }
}

/// A sequence free of whitespace.
pub open spec fn is_word(s: Seq<char>) -> bool {
    s.len() > 0 && forall|i: int| 0 <= i < s.len() ==> !is_ws(#[trigger] s[i])
}

/// The words of a text that ends with whitespace, extended by a word.
pub proof fn lemma_words_append_word(x: Seq<char>, w: Seq<char>)
    requires
        x.len() == 0 || is_ws(x.last()),
        is_word(w),
    ensures
        words(x + w) == words(x).push(w),
    decreases w.len(),
{
    if w.len() == 1 {
        assert((x + w).drop_last() =~= x);
        assert((x + w).last() == w[0]);
        if x.len() > 0 {
            assert((x + w)[(x + w).len() - 2] == x.last());
        }
        assert(seq![w[0]] =~= w);
    } else {
        let w2 = w.drop_last();
        assert forall|i: int| 0 <= i < w2.len() implies !is_ws(#[trigger] w2[i]) by {
            assert(w2[i] == w[i]);
        }
        lemma_words_append_word(x, w2);
        assert((x + w).drop_last() =~= x + w2);
        assert((x + w).last() == w.last());
        assert((x + w)[(x + w).len() - 2] == w[w.len() - 2]);
        assert(w2.push(w.last()) =~= w);
        assert(words(x).push(w2).update(words(x).len() as int, w2.push(w.last())) =~= words(x).push(
            w,
        ));
    }
}

/// The words of `m + " " + v` for words `m` and `v`.
pub proof fn lemma_words_pair(m: Seq<char>, v: Seq<char>)
    requires
        is_word(m),
        is_word(v),
    ensures
        words(m + " "@ + v) == seq![m, v],
{
    assert(" "@ =~= seq![' ']) by {
        reveal_strlit(" ");
    }
    lemma_words_append_word(Seq::<char>::empty(), m);
    assert(Seq::<char>::empty() + m =~= m);
    assert(words(Seq::<char>::empty()) =~= Seq::<Seq<char>>::empty());
    let x = m + " "@;
    assert(x.drop_last() =~= m);
    assert(words(x) == words(m));
    lemma_words_append_word(x, v);
    assert(seq![m].push(v) =~= seq![m, v]);
}

/// Trimming leaves a sequence alone when it starts and ends with non-whitespace.
pub proof fn lemma_trim_unchanged(s: Seq<char>)
    requires
        s.len() > 0,
        !is_ws(s[0]),
        !is_ws(s.last()),
    ensures
        trim(s) == s,
{
}

// ------------------------------------------------------------------------------------------
// Lines
// ------------------------------------------------------------------------------------------

pub open spec fn strip_cr(l: Seq<char>) -> Seq<char> {
    if l.len() > 0 && l.last() == '\r' {
        l.drop_last()
    } else {
        l
    }
}

/// `str::lines`: the pieces between line feeds, without a final empty piece, where a
/// carriage return right before a line feed is dropped.
pub open spec fn lines(s: Seq<char>) -> Seq<Seq<char>> {
    let p = split(s, '\n');
    let n = if p.last().len() == 0 {
        p.len() - 1
    } else {
        p.len() as int
    };
    Seq::new(n as nat, |i: int| if i < p.len() - 1 { strip_cr(p[i]) } else { p[i] })
}

/// Appending a line and a line feed to a text that is empty or ends with a line feed adds
/// one line.
pub proof fn lemma_lines_append(s: Seq<char>, l: Seq<char>)
    requires
        s.len() == 0 || s.last() == '\n',
        forall|i: int| 0 <= i < l.len() ==> l[i] != '\n',
    ensures
        lines(s + l + "\n"@) == lines(s).push(strip_cr(l)),
{
    assert("\n"@ =~= seq!['\n']) by {
        reveal_strlit("\n");
    }
    let t = l + "\n"@;
    lemma_split_without(l, '\n');
    assert(t.drop_last() =~= l);
    assert(split(t, '\n') =~= seq![l, Seq::<char>::empty()]);
    if s.len() == 0 {
        assert(s + l + "\n"@ =~= t);
        assert(split(s, '\n') =~= seq![Seq::<char>::empty()]);
        assert(lines(s) =~= Seq::<Seq<char>>::empty());
        assert(lines(t) =~= seq![strip_cr(l)]);
    } else {
        assert(s + l + "\n"@ =~= s + t);
        lemma_split_append(s, t, '\n');
        lemma_split_nonempty(s.drop_last(), '\n');
        let p = split(s, '\n');
        assert(p.last() == Seq::<char>::empty());
        assert(lines(s + t) =~= lines(s).push(strip_cr(l)));
    }
}

/// The ranges of `lines(v[lo..hi])` within `v`.
pub fn line_ranges(v: &Vec<char>, lo: usize, hi: usize) -> (rs: Vec<(usize, usize)>)
    requires
        lo <= hi <= v.len(),
    ensures
        pieces(v@, rs@) == lines(v@.subrange(lo as int, hi as int)),
        ranges_within(rs@, lo as int, hi as int),
{
    let sp = split_ranges(v, lo, hi, '\n');
    let ghost p = split(v@.subrange(lo as int, hi as int), '\n');
    assert(pieces(v@, sp@) == p);
    let total = sp.len();
    let last = sp[total - 1];
    assert(p.last() == v@.subrange(last.0 as int, last.1 as int));
    let n = if last.0 == last.1 {
        total - 1
    } else {
        total
    };
    let mut out: Vec<(usize, usize)> = Vec::new();
    let mut i: usize = 0;
    while i < n
        invariant
            lo <= hi <= v.len(),
            n <= total == sp@.len(),
            p == pieces(v@, sp@),
            ranges_within(sp@, lo as int, hi as int),
            0 <= i <= n,
            out@.len() == i,
            ranges_within(out@, lo as int, hi as int),
            forall|k: int|
                0 <= k < i ==> v@.subrange((#[trigger] out@[k]).0 as int, out@[k].1 as int) == (
                if k < p.len() - 1 {
                    strip_cr(p[k])
                } else {
                    p[k]
                }),
        decreases n - i,
    {
        let (a, b) = sp[i];
        assert(sp@[i as int] == (a, b));
        assert(p[i as int] == v@.subrange(a as int, b as int));
        if i + 1 < total && b > a && v[b - 1] == '\r' {
            assert(v@.subrange(a as int, b - 1) =~= p[i as int].drop_last());
            out.push((a, b - 1));
        } else {
            out.push((a, b));
        }
        i = i + 1;
    }
    assert(pieces(v@, out@) =~= lines(v@.subrange(lo as int, hi as int)));
    out
}

// ------------------------------------------------------------------------------------------
// Decimal numbers
// ------------------------------------------------------------------------------------------

pub open spec fn all_digits(d: Seq<char>) -> bool {
    forall|i: int| 0 <= i < d.len() ==> is_digit(#[trigger] d[i])
}

pub open spec fn digits_value(d: Seq<char>) -> nat
    decreases d.len(),
{
    if d.len() == 0 {
        0
    } else {
        digits_value(d.drop_last()) * 10 + digit_value(d.last())
    }
}

/// The digits of an unsigned number in `FromStr` syntax: an optional leading `+`.
pub open spec fn unsigned_digits(s: Seq<char>) -> Seq<char> {
    if s.len() > 0 && s[0] == '+' {
        s.drop_first()
    } else {
        s
    }
}

/// `FromStr` for an unsigned integer type whose maximum is `max`: an optional `+`, then
/// one or more ASCII digits whose value does not exceed `max`.
pub open spec fn parse_unsigned(s: Seq<char>, max: nat) -> Option<nat> {
    let d = unsigned_digits(s);
    if d.len() > 0 && all_digits(d) && digits_value(d) <= max {
        Some(digits_value(d))
    } else {
        None
    }
}

proof fn lemma_digits_value_prefix(d: Seq<char>, k: int)
    requires
        0 <= k <= d.len(),
        all_digits(d),
    ensures
        digits_value(d.subrange(0, k)) <= digits_value(d),
    decreases d.len() - k,
{
    if k < d.len() {
        lemma_digits_value_prefix(d, k + 1);
        let p = d.subrange(0, k + 1);
        assert(p.drop_last() =~= d.subrange(0, k));
    } else {
        assert(d.subrange(0, k) =~= d);
    }
}

/// Parses `v[lo..hi]` as an unsigned number no greater than `max`.
pub fn parse_unsigned_range(v: &Vec<char>, lo: usize, hi: usize, max: u64) -> (r: Option<u64>)
    requires
        lo <= hi <= v.len(),
    ensures
        match r {
            Some(x) => parse_unsigned(v@.subrange(lo as int, hi as int), max as nat) == Some(
                x as nat,
            ),
            None => parse_unsigned(v@.subrange(lo as int, hi as int), max as nat) is None,
        },
{
    let ghost s = v@.subrange(lo as int, hi as int);
    let start = if lo < hi && v[lo] == '+' {
        lo + 1
    } else {
        lo
    };
    let ghost d = unsigned_digits(s);
    assert(d =~= v@.subrange(start as int, hi as int));
    if start == hi {
        return None;
    }
    let mut acc: u64 = 0;
    let mut i = start;
    assert(v@.subrange(start as int, start as int) =~= Seq::<char>::empty());
    while i < hi
        invariant
            lo <= start <= i <= hi <= v.len(),
            d == v@.subrange(start as int, hi as int),
            d == unsigned_digits(v@.subrange(lo as int, hi as int)),
            acc as nat == digits_value(v@.subrange(start as int, i as int)),
            acc <= max,
            all_digits(v@.subrange(start as int, i as int)),
        decreases hi - i,
    {
        let c = v[i];
        let u = c as u32;
        let ghost next = v@.subrange(start as int, i + 1);
        assert(next.drop_last() =~= v@.subrange(start as int, i as int));
        assert(next.last() == c);
        if u < 48 || u > 57 {
            assert(d[i - start] == c);
            return None;
        }
        let dv = (u - 48) as u64;
        let wide: u128 = (acc as u128) * 10 + (dv as u128);
        assert(wide == digits_value(next));
        if wide > max as u128 {
            proof {
                if all_digits(d) {
                    assert(next =~= d.subrange(0, i + 1 - start));
                    lemma_digits_value_prefix(d, i + 1 - start);
                }
            }
            return None;
        }
        acc = wide as u64;
        i = i + 1;
    }
    Some(acc)
}

/// The decimal representation of a natural number, without leading zeros.
pub open spec fn decimal(n: nat) -> Seq<char>
    decreases n,
{
    if n < 10 {
        seq![digit_char(n)]
    } else {
        decimal(n / 10).push(digit_char(n % 10))
    }
}

proof fn lemma_digit_char(d: nat)
    requires
        d < 10,
    ensures
        is_digit(digit_char(d)),
        digit_value(digit_char(d)) == d,
{
}

/// The decimal representation of `n` is a nonempty run of digits whose value is `n`.
pub proof fn lemma_decimal_digits(n: nat)
    ensures
        decimal(n).len() > 0,
        all_digits(decimal(n)),
        digits_value(decimal(n)) == n,
    decreases n,
{
    if n < 10 {
        lemma_digit_char(n);
        assert(decimal(n).drop_last() =~= Seq::<char>::empty());
        assert(digits_value(Seq::<char>::empty()) == 0);
        assert(digits_value(decimal(n)) == digits_value(decimal(n).drop_last()) * 10 + digit_value(decimal(n).last()));
    } else {
        lemma_decimal_digits(n / 10);
        lemma_digit_char(n % 10);
        assert(decimal(n).drop_last() =~= decimal(n / 10));
        assert(decimal(n).last() == digit_char(n % 10));
        assert(digits_value(decimal(n)) == digits_value(decimal(n / 10)) * 10 + n % 10);
        assert((n / 10) * 10 + n % 10 == n);
    }
}

/// The decimal representation of `n` reads back as `n`.
pub proof fn lemma_parse_decimal(n: nat, max: nat)
    requires
        n <= max,
    ensures
        parse_unsigned(decimal(n), max) == Some(n),
{
    lemma_decimal_digits(n);
    assert(is_digit(decimal(n)[0]));
    assert(unsigned_digits(decimal(n)) == decimal(n));
}

/// Appends the decimal representation of `n` to a string.
pub fn push_decimal(s: &mut String, n: u64)
    ensures
        final(s)@ == old(s)@ + decimal(n as nat),
    decreases n,
{
    if n < 10 {
        let c = exec_digit_char(n as usize);
        push_char(s, c);
        assert(decimal(n as nat) =~= seq![c]);
    } else {
        push_decimal(s, n / 10);
        let c = exec_digit_char((n % 10) as usize);
        push_char(s, c);
        assert(old(s)@ + decimal(n as nat) =~= old(s)@ + decimal((n / 10) as nat) + seq![c]);
    }
}

// ------------------------------------------------------------------------------------------
// Prefixes and suffixes
// ------------------------------------------------------------------------------------------

/// Whether `v[lo..hi]` starts with `p`.
pub fn range_starts_with(v: &Vec<char>, lo: usize, hi: usize, p: &Vec<char>) -> (r: bool)
    requires
        lo <= hi <= v.len(),
    ensures
        r == p@.is_prefix_of(v@.subrange(lo as int, hi as int)),
{
    if hi - lo < p.len() {
        return false;
    }
    let r = range_eq(v, lo, lo + p.len(), p);
    assert(v@.subrange(lo as int, hi as int).subrange(0, p@.len() as int) =~= v@.subrange(
        lo as int,
        lo + p@.len(),
    ));
    r
}

/// Whether `v[lo..hi]` ends with `p`.
pub fn range_ends_with(v: &Vec<char>, lo: usize, hi: usize, p: &Vec<char>) -> (r: bool)
    requires
        lo <= hi <= v.len(),
    ensures
        r == p@.is_suffix_of(v@.subrange(lo as int, hi as int)),
{
    if hi - lo < p.len() {
        return false;
    }
    let r = range_eq(v, hi - p.len(), hi, p);
    let ghost s = v@.subrange(lo as int, hi as int);
    assert(s.subrange(s.len() - p@.len(), s.len() as int) =~= v@.subrange(
        hi - p@.len(),
        hi as int,
    ));
    r
}

// ------------------------------------------------------------------------------------------
// Searching
// ------------------------------------------------------------------------------------------

/// The index of the first occurrence of `c` in `s`, or -1.
pub open spec fn index_of_char(s: Seq<char>, c: char) -> int
    decreases s.len(),
{
    if s.len() == 0 {
        -1
    } else {
        let r = index_of_char(s.drop_last(), c);
        if r >= 0 {
            r
        } else if s.last() == c {
            s.len() - 1
        } else {
            -1
        }
    }
}

pub proof fn lemma_index_of_char(s: Seq<char>, c: char)
    ensures
        -1 <= index_of_char(s, c) < s.len(),
        index_of_char(s, c) >= 0 ==> s[index_of_char(s, c)] == c,
        forall|j: int| 0 <= j < index_of_char(s, c) ==> s[j] != c,
        index_of_char(s, c) < 0 ==> forall|j: int| 0 <= j < s.len() ==> s[j] != c,
    decreases s.len(),
{
    if s.len() > 0 {
        let t = s.drop_last();
        lemma_index_of_char(t, c);
        assert forall|j: int| 0 <= j < t.len() implies t[j] == s[j] by {}
    }
}

/// Characterizes `index_of_char` by the first occurrence.
pub proof fn lemma_index_of_char_at(s: Seq<char>, c: char, k: int)
    requires
        -1 <= k < s.len(),
        k >= 0 ==> s[k] == c,
        forall|j: int| 0 <= j < s.len() && (k < 0 || j < k) ==> s[j] != c,
    ensures
        index_of_char(s, c) == k,
    decreases s.len(),
{
    if s.len() > 0 {
        if k == s.len() - 1 {
            lemma_index_of_char_at(s.drop_last(), c, -1);
        } else {
            lemma_index_of_char_at(s.drop_last(), c, k);
        }
    }
}

/// The first position of `c` in `v[lo..hi]`, as an index of `v`.
pub fn find_char(v: &Vec<char>, lo: usize, hi: usize, c: char) -> (r: Option<usize>)
    requires
        lo <= hi <= v.len(),
    ensures
        match r {
            Some(k) => lo <= k < hi && index_of_char(v@.subrange(lo as int, hi as int), c) == k
                - lo,
            None => index_of_char(v@.subrange(lo as int, hi as int), c) == -1,
        },
{
    let mut i = lo;
    while i < hi
        invariant
            lo <= i <= hi <= v.len(),
            forall|j: int| lo <= j < i ==> v@[j] != c,
        decreases hi - i,
    {
        if v[i] == c {
            proof {
                lemma_index_of_char_at(v@.subrange(lo as int, hi as int), c, i - lo);
            }
            return Some(i);
        }
        i = i + 1;
    }
    proof {
        lemma_index_of_char_at(v@.subrange(lo as int, hi as int), c, -1);
    }
    None
}

/// The first index `i` with `s[i] == s[i + 1] == c`, or -1.
pub open spec fn index_of_pair(s: Seq<char>, c: char) -> int
    decreases s.len(),
{
    if s.len() == 0 {
        -1
    } else {
        let r = index_of_pair(s.drop_last(), c);
        if r >= 0 {
            r
        } else if s.len() >= 2 && s[s.len() - 2] == c && s.last() == c {
            s.len() - 2
        } else {
            -1
        }
    }
}

pub proof fn lemma_index_of_pair(s: Seq<char>, c: char)
    ensures
        -1 <= index_of_pair(s, c) <= s.len() - 2 || index_of_pair(s, c) == -1,
        index_of_pair(s, c) >= 0 ==> s[index_of_pair(s, c)] == c && s[index_of_pair(s, c) + 1] == c,
    decreases s.len(),
{
    if s.len() > 0 {
        lemma_index_of_pair(s.drop_last(), c);
    }
}

proof fn lemma_index_of_pair_at(s: Seq<char>, c: char, k: int)
    requires
        -1 <= k,
        k >= 0 ==> k + 1 < s.len() && s[k] == c && s[k + 1] == c,
        forall|j: int| 0 <= j && j + 1 < s.len() && (k < 0 || j < k) ==> !(#[trigger] s[j] == c && s[j + 1] == c),
    ensures
        index_of_pair(s, c) == k,
    decreases s.len(),
{
    if s.len() > 0 {
        let t = s.drop_last();
        if k == s.len() - 2 {
            lemma_index_of_pair_at(t, c, -1);
        } else {
            assert forall|j: int| 0 <= j && j + 1 < t.len() && (k < 0 || j < k) implies !(#[trigger] t[j] == c
                && t[j + 1] == c) by {
                assert(t[j] == s[j] && t[j + 1] == s[j + 1]);
            }
            if k >= 0 {
                assert(t[k] == s[k] && t[k + 1] == s[k + 1]);
            }
            lemma_index_of_pair_at(t, c, k);
        }
    }
}

/// `str::split` at a separator made of two equal characters (such as "::"): the pieces
/// between the leftmost non-overlapping occurrences.
pub open spec fn split_pair(s: Seq<char>, c: char) -> Seq<Seq<char>>
    decreases s.len(),
{
    let i = index_of_pair(s, c);
    if i < 0 {
        seq![s]
    } else {
        proof {
            lemma_index_of_pair(s, c);
        }
        seq![s.subrange(0, i)] + split_pair(s.subrange(i + 2, s.len() as int), c)
    }
}

/// The ranges of `split_pair(v[lo..hi], c)` within `v`.
pub fn split_pair_ranges(v: &Vec<char>, lo: usize, hi: usize, c: char) -> (rs: Vec<(usize, usize)>)
    requires
        lo <= hi <= v.len(),
    ensures
        pieces(v@, rs@) == split_pair(v@.subrange(lo as int, hi as int), c),
        ranges_within(rs@, lo as int, hi as int),
{
    let mut done: Vec<(usize, usize)> = Vec::new();
    let mut start = lo;
    let mut i = lo;
    assert(pieces(v@, done@) + split_pair(v@.subrange(start as int, hi as int), c) =~= split_pair(
        v@.subrange(lo as int, hi as int),
        c,
    ));
    while hi - i > 1
        invariant
            lo <= start <= i <= hi <= v.len(),
            ranges_within(done@, lo as int, start as int),
            forall|j: int| start <= j < i && j + 1 < hi ==> !(#[trigger] v@[j] == c && v@[j + 1] == c),
            pieces(v@, done@) + split_pair(v@.subrange(start as int, hi as int), c) == split_pair(
                v@.subrange(lo as int, hi as int),
                c,
            ),
        decreases hi - i,
    {
        if v[i] == c && v[i + 1] == c {
            let ghost rest = v@.subrange(start as int, hi as int);
            proof {
                lemma_index_of_pair_at(rest, c, i - start);
                assert(rest.subrange(0, i - start) =~= v@.subrange(start as int, i as int));
                assert(rest.subrange(i - start + 2, rest.len() as int) =~= v@.subrange(
                    i + 2,
                    hi as int,
                ));
            }
            let ghost old_done = done@;
            done.push((start, i));
            assert(pieces(v@, done@) =~= pieces(v@, old_done) + seq![
                v@.subrange(start as int, i as int),
            ]);
            start = i + 2;
            i = i + 2;
        } else {
            i = i + 1;
        }
    }
    let ghost rest = v@.subrange(start as int, hi as int);
    proof {
        assert forall|j: int| 0 <= j && j + 1 < rest.len() implies !(#[trigger] rest[j] == c && rest[j + 1]
            == c) by {
            assert(rest[j] == v@[start + j] && rest[j + 1] == v@[start + j + 1]);
        }
        lemma_index_of_pair_at(rest, c, -1);
    }
    let ghost old_done = done@;
    done.push((start, hi));
    assert(pieces(v@, done@) =~= pieces(v@, old_done) + seq![rest]);
    done
}

// ------------------------------------------------------------------------------------------
// Lexicographic order
// ------------------------------------------------------------------------------------------

/// The order of `String`: lexicographic by characters (which is the order of their UTF-8
/// bytes).
pub open spec fn lex_lt(a: Seq<char>, b: Seq<char>) -> bool
    decreases a.len(),
{
    if a.len() == 0 {
        b.len() > 0
    } else if b.len() == 0 {
        false
    } else if a[0] != b[0] {
        (a[0] as u32) < (b[0] as u32)
    } else {
        lex_lt(a.drop_first(), b.drop_first())
    }
}

pub proof fn lemma_lex_trans(a: Seq<char>, b: Seq<char>, c: Seq<char>)
    requires
        lex_lt(a, b),
        lex_lt(b, c),
    ensures
        lex_lt(a, c),
    decreases a.len(),
{
    if a.len() > 0 && b.len() > 0 && c.len() > 0 && a[0] == b[0] && b[0] == c[0] {
        lemma_lex_trans(a.drop_first(), b.drop_first(), c.drop_first());
    }
}

pub proof fn lemma_lex_total(a: Seq<char>, b: Seq<char>)
    ensures
        a == b || lex_lt(a, b) || lex_lt(b, a),
        !(lex_lt(a, b) && lex_lt(b, a)),
        !lex_lt(a, a),
    decreases a.len(),
{
    if a.len() > 0 && b.len() > 0 && a[0] == b[0] {
        lemma_lex_total(a.drop_first(), b.drop_first());
        if a.drop_first() == b.drop_first() {
            assert(a =~= seq![a[0]] + a.drop_first());
            assert(b =~= seq![b[0]] + b.drop_first());
            assert(a =~= b);
        }
    } else if a.len() == 0 && b.len() == 0 {
        assert(a =~= b);
    } else if a.len() > 0 && b.len() > 0 {
        vstd::utf8::char_u32_cast(a[0], a[0] as u32);
        vstd::utf8::char_u32_cast(b[0], b[0] as u32);
        assert((a[0] as u32) != (b[0] as u32));
        lemma_lex_total(a.drop_first(), a.drop_first());
    } else if a.len() > 0 {
        lemma_lex_total(a.drop_first(), a.drop_first());
    }
}

/// Whether `a` comes strictly before `b` in the order of `String`.
pub fn lex_less(a: &str, b: &str) -> (r: bool)
    ensures
        r == lex_lt(a@, b@),
{
    let va = chars_of(a);
    let vb = chars_of(b);
    let mut i: usize = 0;
    assert(va@.skip(0) =~= va@);
    assert(vb@.skip(0) =~= vb@);
    while i < va.len() && i < vb.len() && va[i] == vb[i]
        invariant
            0 <= i <= va@.len(),
            i <= vb@.len(),
            va@.subrange(0, i as int) == vb@.subrange(0, i as int),
            lex_lt(va@, vb@) == lex_lt(va@.skip(i as int), vb@.skip(i as int)),
        decreases va.len() - i,
    {
        assert(va@.skip(i as int).drop_first() =~= va@.skip(i + 1));
        assert(vb@.skip(i as int).drop_first() =~= vb@.skip(i + 1));
        assert(va@.subrange(0, i + 1) =~= va@.subrange(0, i as int).push(va@[i as int]));
        assert(vb@.subrange(0, i + 1) =~= vb@.subrange(0, i as int).push(vb@[i as int]));
        i = i + 1;
    }
    assert(va@.skip(i as int).len() == 0 || vb@.skip(i as int).len() == 0 || va@.skip(i as int)[0]
        != vb@.skip(i as int)[0]);
    if i == va.len() {
        i < vb.len()
    } else if i == vb.len() {
        false
    } else {
        (va[i] as u32) < (vb[i] as u32)
    }
}

pub open spec fn strs_view(v: Seq<String>) -> Seq<Seq<char>> {
    v.map_values(|s: String| s@)
}

pub open spec fn is_lex_sorted(s: Seq<Seq<char>>) -> bool {
    forall|i: int, j: int| 0 <= i < j < s.len() ==> !lex_lt(s[j], s[i])
}

/// Sorts strings in the order of `String` (a stable insertion sort).
pub fn sort_strings(v: Vec<String>) -> (r: Vec<String>)
    ensures
        is_lex_sorted(strs_view(r@)),
        strs_view(r@).to_multiset() == strs_view(v@).to_multiset(),
{
    broadcast use vstd::seq_lib::group_to_multiset_ensures;

    let mut out: Vec<String> = Vec::new();
    let mut i: usize = 0;
    assert(strs_view(v@).take(0) =~= Seq::<Seq<char>>::empty());
    assert(strs_view(out@) =~= Seq::<Seq<char>>::empty());
    while i < v.len()
        invariant
            0 <= i <= v@.len(),
            is_lex_sorted(strs_view(out@)),
            strs_view(out@).to_multiset() == strs_view(v@).take(i as int).to_multiset(),
        decreases v.len() - i,
    {
        let x = &v[i];
        let mut k: usize = 0;
        while k < out.len() && !lex_less(x.as_str(), out[k].as_str())
            invariant
                0 <= k <= out@.len(),
                forall|j: int| 0 <= j < k ==> !lex_lt(x@, #[trigger] out@[j]@),
            decreases out.len() - k,
        {
            k = k + 1;
        }
        let ghost before = strs_view(out@);
        out.insert(k, x.clone());
        proof {
            let after = strs_view(out@);
            assert(after =~= before.insert(k as int, x@));
            assert(strs_view(v@).take(i + 1) =~= strs_view(v@).take(i as int).push(x@));
            vstd::seq_lib::to_multiset_insert(before, k as int, x@);
            vstd::seq_lib::to_multiset_build(strs_view(v@).take(i as int), x@);
            assert forall|j: int| 0 <= j < after.len() implies #[trigger] after[j] == (if j < k {
                before[j]
            } else if j == k {
                x@
            } else {
                before[j - 1]
            }) by {}
            assert forall|a: int, b: int| 0 <= a < b < after.len() implies !lex_lt(
                after[b],
                after[a],
            ) by {
                if a < k && b == k {
                    assert(after[a] == before[a]);
                    lemma_lex_total(x@, before[a]);
                } else if a == k {
                    assert(after[b] == before[b - 1]);
                    assert(k < before.len());
                    assert(lex_lt(x@, before[k as int]));
                    if b - 1 > k {
                        lemma_lex_total(before[k as int], before[b - 1]);
                        if lex_lt(before[k as int], before[b - 1]) {
                            lemma_lex_trans(x@, before[k as int], before[b - 1]);
                        }
                    }
                    lemma_lex_total(x@, before[b - 1]);
                } else if b < k {
                    assert(after[a] == before[a] && after[b] == before[b]);
                } else if a < k {
                    assert(after[a] == before[a] && after[b] == before[b - 1]);
                } else {
                    assert(after[a] == before[a - 1] && after[b] == before[b - 1]);
                }
            }
        }
        i = i + 1;
    }
    assert(strs_view(v@).take(v@.len() as int) =~= strs_view(v@));
    out
}


// ------------------------------------------------------------------------------------------
// Whole strings
// ------------------------------------------------------------------------------------------

/// The words of a string slice, as strings (`str::split_whitespace`).
pub fn words_of(s: &str) -> (r: Vec<String>)
    ensures
        strs_view(r@) == words(s@),
        forall|i: int| 0 <= i < r@.len() ==> (#[trigger] r@[i])@.len() > 0,
{
    let v = chars_of(s);
    assert(v@.subrange(0, v@.len() as int) =~= v@);
    let ws = word_ranges(&v, 0, v.len());
    let ghost w = words(s@);
    let mut out: Vec<String> = Vec::new();
    let mut i: usize = 0;
    while i < ws.len()
        invariant
            pieces(v@, ws@) == w,
            ranges_within(ws@, 0, v@.len() as int),
            0 <= i <= ws@.len(),
            out@.len() == i,
            forall|j: int| 0 <= j < i ==> (#[trigger] out@[j])@ == w[j],
            forall|j: int| 0 <= j < ws@.len() ==> (#[trigger] ws@[j]).0 < ws@[j].1,
            forall|j: int| 0 <= j < i ==> (#[trigger] out@[j])@.len() > 0,
        decreases ws.len() - i,
    {
        let (a, b) = ws[i];
        assert(ws@[i as int] == (a, b));
        assert(w[i as int] == v@.subrange(a as int, b as int));
        out.push(string_of(&v, a, b));
        i = i + 1;
    }
    assert(strs_view(out@) =~= w);
    out
}

/// The lines of a string slice, as strings (`str::lines`).
pub fn lines_of(s: &str) -> (r: Vec<String>)
    ensures
        strs_view(r@) == lines(s@),
{
    let v = chars_of(s);
    assert(v@.subrange(0, v@.len() as int) =~= v@);
    let ls = line_ranges(&v, 0, v.len());
    let ghost l = lines(s@);
    let mut out: Vec<String> = Vec::new();
    let mut i: usize = 0;
    while i < ls.len()
        invariant
            pieces(v@, ls@) == l,
            ranges_within(ls@, 0, v@.len() as int),
            0 <= i <= ls@.len(),
            out@.len() == i,
            forall|j: int| 0 <= j < i ==> (#[trigger] out@[j])@ == l[j],
        decreases ls.len() - i,
    {
        let (a, b) = ls[i];
        assert(ls@[i as int] == (a, b));
        assert(l[i as int] == v@.subrange(a as int, b as int));
        out.push(string_of(&v, a, b));
        i = i + 1;
    }
    assert(strs_view(out@) =~= l);
    out
}

/// `str::trim_end_matches(c)`: the sequence without the occurrences of `c` at its end.
pub open spec fn trim_end_char(s: Seq<char>, c: char) -> Seq<char>
    decreases s.len(),
{
    if s.len() > 0 && s.last() == c {
        trim_end_char(s.drop_last(), c)
    } else {
        s
    }
}

/// A string slice without the occurrences of `c` at its end.
pub fn trim_end_matches_char(s: &str, c: char) -> (r: String)
    ensures
        r@ == trim_end_char(s@, c),
{
    let v = chars_of(s);
    let mut b = v.len();
    assert(v@.subrange(0, b as int) =~= s@);
    while b > 0 && v[b - 1] == c
        invariant
            b <= v@.len(),
            v@ == s@,
            trim_end_char(v@.subrange(0, b as int), c) == trim_end_char(s@, c),
        decreases b,
    {
        assert(v@.subrange(0, b as int).drop_last() =~= v@.subrange(0, b - 1));
        b = b - 1;
    }
    string_of(&v, 0, b)
}

/// Whether a string slice starts with another.
pub fn str_starts_with(s: &str, p: &str) -> (r: bool)
    ensures
        r == p@.is_prefix_of(s@),
{
    let v = chars_of(s);
    assert(v@.subrange(0, v@.len() as int) =~= v@);
    range_starts_with(&v, 0, v.len(), &chars_of(p))
}

/// The positions of `c` in `s`, ascending.
pub open spec fn char_positions(s: Seq<char>, c: char) -> Seq<int>
    decreases s.len(),
{
    if s.len() == 0 {
        Seq::<int>::empty()
    } else if s.last() == c {
        char_positions(s.drop_last(), c).push(s.len() - 1)
    } else {
        char_positions(s.drop_last(), c)
    }
}

/// The positions of `c` in `v`, ascending.
pub fn char_positions_of(v: &Vec<char>, c: char) -> (r: Vec<usize>)
    ensures
        r@.map_values(|k: usize| k as int) == char_positions(v@, c),
        forall|j: int| 0 <= j < r@.len() ==> (#[trigger] r@[j]) < v@.len(),
{
    let mut out: Vec<usize> = Vec::new();
    let mut i: usize = 0;
    assert(v@.take(0) =~= Seq::<char>::empty());
    while i < v.len()
        invariant
            0 <= i <= v@.len(),
            out@.map_values(|k: usize| k as int) == char_positions(v@.take(i as int), c),
            forall|j: int| 0 <= j < out@.len() ==> (#[trigger] out@[j]) < i,
        decreases v.len() - i,
    {
        assert(v@.take(i + 1).drop_last() =~= v@.take(i as int));
        assert(v@.take(i + 1).last() == v@[i as int]);
        if v[i] == c {
            let ghost before = out@;
            out.push(i);
            assert(out@.map_values(|k: usize| k as int) =~= before.map_values(|k: usize| k as int).push(
                i as int,
            ));
        }
        i = i + 1;
    }
    assert(v@.take(i as int) =~= v@);
    out
}

} // verus!

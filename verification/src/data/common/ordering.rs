//! Ordering the nodes `0..n` consistently with a family of chains: every chain `c` asks
//! that `c[j - 1]` come before `c[j]`. The result is either an order of all nodes that
//! every chain respects, or a nonempty set of nodes each of which waits on another node of
//! the set (so no such order exists).
use vstd::prelude::*;

verus! {

/// `p -> q` is an edge when some chain has `p` right before `q`.
pub open spec fn is_edge(chains: Seq<Seq<usize>>, p: int, q: int) -> bool {
    exists|l: int, j: int|
        0 <= l < chains.len() && 1 <= j < chains[l].len() && chains[l][j - 1] == p
            && #[trigger] chains[l][j] == q
}

pub open spec fn chains_within(chains: Seq<Seq<usize>>, n: nat) -> bool {
    forall|l: int, j: int| 0 <= l < chains.len() && 0 <= j < chains[l].len() ==> #[trigger] chains[l][j] < n
}

/// `o` lists every node `0..n` exactly once, and every edge goes forward in it.
pub open spec fn is_node_order(o: Seq<usize>, chains: Seq<Seq<usize>>, n: nat) -> bool {
    &&& forall|k: int| 0 <= k < o.len() ==> #[trigger] o[k] < n
    &&& o.no_duplicates()
    &&& forall|v: usize| v < n ==> #[trigger] o.contains(v)
    &&& forall|a: int, b: int|
        0 <= a < o.len() && 0 <= b < o.len() && is_edge(chains, o[a] as int, o[b] as int) ==> a
            < b
}

/// Node `v` has an incoming edge from a node of `u`.
#[verifier::opaque]
pub open spec fn waits_within(u: Set<int>, chains: Seq<Seq<usize>>, v: int) -> bool {
    exists|p: int| u.contains(p) && is_edge(chains, p, v)
}

/// A nonempty set of nodes in which every node has an incoming edge from the set.
pub open spec fn is_blocked_set(u: Set<int>, chains: Seq<Seq<usize>>, n: nat) -> bool {
    &&& exists|v: int| #[trigger] u.contains(v)
    &&& forall|v: int| #[trigger] u.contains(v) ==> 0 <= v < n
    &&& forall|v: int| #[trigger] u.contains(v) ==> waits_within(u, chains, v)
}

pub open spec fn count_false(s: Seq<bool>) -> nat
    decreases s.len(),
{
    if s.len() == 0 {
        0
    } else {
        count_false(s.drop_last()) + if s.last() {
            0nat
        } else {
            1nat
        }
    }
}

proof fn lemma_count_false_update(s: Seq<bool>, v: int)
    requires
        0 <= v < s.len(),
        !s[v],
    ensures
        count_false(s.update(v, true)) + 1 == count_false(s),
    decreases s.len(),
{
    let t = s.update(v, true);
    if v == s.len() - 1 {
        assert(t.drop_last() =~= s.drop_last());
    } else {
        assert(t.drop_last() =~= s.drop_last().update(v, true));
        lemma_count_false_update(s.drop_last(), v);
    }
}

/// Whether node `v` has all its predecessors in `done`.
fn is_ready(chains: &Vec<Vec<usize>>, done: &Vec<bool>, v: usize) -> (r: bool)
    requires
        chains_within(chains.deep_view(), done@.len() as nat),
    ensures
        r == forall|p: int| is_edge(chains.deep_view(), p, v as int) ==> done@[p],
{
    let ghost cs = chains.deep_view();
    let mut l: usize = 0;
    while l < chains.len()
        invariant
            cs == chains.deep_view(),
            chains_within(cs, done@.len() as nat),
            0 <= l <= chains@.len(),
            forall|l2: int, j: int|
                0 <= l2 < l && 1 <= j < cs[l2].len() && #[trigger] cs[l2][j] == v ==> done@[cs[l2][j
                    - 1] as int],
        decreases chains.len() - l,
    {
        let chain = &chains[l];
        assert(chain@ == cs[l as int]);
        let mut j: usize = 1;
        while j < chain.len()
            invariant
                cs == chains.deep_view(),
                chains_within(cs, done@.len() as nat),
                0 <= l < chains@.len(),
                chain@ == cs[l as int],
                1 <= j <= chain@.len() || chain@.len() == 0,
                forall|l2: int, j2: int|
                    0 <= l2 < l && 1 <= j2 < cs[l2].len() && #[trigger] cs[l2][j2] == v ==> done@[cs[l2][j2
                        - 1] as int],
                forall|j2: int|
                    1 <= j2 < j && j2 < cs[l as int].len() && #[trigger] cs[l as int][j2] == v
                        ==> done@[cs[l as int][j2 - 1] as int],
            decreases chain.len() - j,
        {
            if chain[j] == v {
                let p = chain[j - 1];
                assert(p < done@.len()) by {
                    assert(cs[l as int][j - 1] < done@.len());
                }
                if !done[p] {
                    assert(is_edge(cs, p as int, v as int)) by {
                        assert(cs[l as int][j - 1] == p && cs[l as int][j as int] == v);
                    }
                    return false;
                }
            }
            j = j + 1;
        }
        l = l + 1;
    }
    proof {
        assert forall|p: int| is_edge(cs, p, v as int) implies done@[p] by {
            let (l2, j2) = choose|l2: int, j2: int|
                0 <= l2 < cs.len() && 1 <= j2 < cs[l2].len() && cs[l2][j2 - 1] == p && #[trigger] cs[l2][j2]
                    == v;
        }
    }
    true
}

/// Orders the nodes `0..n` so that every chain is respected, or finds that no such order
/// exists, returning a blocked set as the witness.
pub fn order_nodes(n: usize, chains: &Vec<Vec<usize>>) -> (r: Result<
    Vec<usize>,
    Ghost<Set<int>>,
>)
    requires
        chains_within(chains.deep_view(), n as nat),
    ensures
        match r {
            Ok(o) => is_node_order(o@, chains.deep_view(), n as nat),
            Err(u) => is_blocked_set(u@, chains.deep_view(), n as nat),
        },
{
    let ghost cs = chains.deep_view();
    let mut done: Vec<bool> = Vec::new();
    let mut pos: Vec<usize> = Vec::new();
    let mut i: usize = 0;
    while i < n
        invariant
            0 <= i <= n,
            done@.len() == i,
            pos@.len() == i,
            forall|v: int| 0 <= v < i ==> !(#[trigger] done@[v]),
        decreases n - i,
    {
        done.push(false);
        pos.push(0);
        i = i + 1;
    }
    let mut o: Vec<usize> = Vec::new();
    proof {
        assert(count_false(done@) == n) by {
            lemma_count_all_false(done@);
        }
    }
    loop
        invariant
            cs == chains.deep_view(),
            chains_within(cs, n as nat),
            done@.len() == n,
            pos@.len() == n,
            count_false(done@) + o@.len() == n,
            forall|k: int|
                0 <= k < o@.len() ==> (#[trigger] o@[k]) < n && done@[o@[k] as int] && pos@[o@[k] as int]
                    == k,
            forall|v: int| 0 <= v < n && #[trigger] done@[v] ==> pos@[v] < o@.len() && o@[pos@[v] as int] == v,
            forall|p: int, q: int|
                0 <= q < n && done@[q] && #[trigger] is_edge(cs, p, q) ==> 0 <= p < n && done@[p]
                    && pos@[p] < pos@[q],
        decreases count_false(done@),
    {
        let mut v: usize = 0;
        let mut found = false;
        while v < n && !found
            invariant
                cs == chains.deep_view(),
                chains_within(cs, n as nat),
                done@.len() == n,
                0 <= v <= n,
                found ==> v < n && !done@[v as int] && (forall|p: int|
                    is_edge(cs, p, v as int) ==> done@[p]),
                !found ==> forall|w: int|
                    0 <= w < v && !done@[w] ==> exists|p: int| is_edge(cs, p, w) && !done@[p],
            decreases n - v + (if found {
                0int
            } else {
                1int
            }),
        {
            if !done[v] && is_ready(chains, &done, v) {
                found = true;
            } else {
                proof {
                    if !done@[v as int] {
                        let p = choose|p: int| !(is_edge(cs, p, v as int) ==> done@[p]);
                    }
                }
                v = v + 1;
            }
        }
        if !found {
            proof {
                reveal(all_waiting);
            }
            let mut w: usize = 0;
            while w < n
                invariant
                    cs == chains.deep_view(),
                    chains_within(cs, n as nat),
                    all_waiting(cs, n as nat, done@),
                    done@.len() == n,
                    0 <= w <= n,
                    forall|x: int| 0 <= x < w ==> #[trigger] done@[x],
                decreases n - w,
            {
                if !done[w] {
                    let ghost u = Set::new(|x: int| 0 <= x < n && !done@[x]);
                    proof {
                        lemma_blocked_set(cs, n as nat, done@, w as int);
                    }
                    return Err(Ghost(u));
                }
                w = w + 1;
            }
            proof {
                assert forall|a: int, b: int| 0 <= a < b < o@.len() implies o@[a] != o@[b] by {
                    assert(pos@[o@[a] as int] == a);
                    assert(pos@[o@[b] as int] == b);
                }
                assert forall|x: usize| x < n implies #[trigger] o@.contains(x) by {
                    assert(done@[x as int]);
                    assert(o@[pos@[x as int] as int] == x);
                }
                assert forall|a: int, b: int|
                    0 <= a < o@.len() && 0 <= b < o@.len() && is_edge(
                        cs,
                        o@[a] as int,
                        o@[b] as int,
                    ) implies a < b by {
                    assert(done@[o@[b] as int]);
                }
            }
            return Ok(o);
        }
        let ghost old_done = done@;
        let ghost old_pos = pos@;
        let ghost old_o = o@;
        proof {
            lemma_count_false_update(done@, v as int);
        }
        let k = o.len();
        pos.set(v, k);
        done.set(v, true);
        o.push(v);
        proof {
            assert forall|p: int, q: int|
                0 <= q < n && done@[q] && #[trigger] is_edge(cs, p, q) implies 0 <= p < n
                && done@[p] && pos@[p] < pos@[q] by {
                let (l2, j2) = choose|l2: int, j2: int|
                    0 <= l2 < cs.len() && 1 <= j2 < cs[l2].len() && cs[l2][j2 - 1] == p && #[trigger] cs[l2][j2]
                        == q;
                assert(cs[l2][j2 - 1] < n);
                if q == v {
                    assert(old_done[p]);
                    assert(p != v);
                } else {
                    assert(old_done[q]);
                    assert(old_done[p]);
                    if p == v {
                        assert(false);
                    }
                }
            }
        }
    }
}

/// Every node not yet placed waits on another node not yet placed.
#[verifier::opaque]
spec fn all_waiting(cs: Seq<Seq<usize>>, n: nat, done: Seq<bool>) -> bool {
    forall|x: int| 0 <= x < n && !done[x] ==> exists|p: int| is_edge(cs, p, x) && !done[p]
}

proof fn lemma_blocked_set(cs: Seq<Seq<usize>>, n: nat, done: Seq<bool>, w: int)
    requires
        chains_within(cs, n),
        done.len() == n,
        0 <= w < n,
        !done[w],
        all_waiting(cs, n, done),
    ensures
        is_blocked_set(Set::new(|x: int| 0 <= x < n && !done[x]), cs, n),
{
    reveal(all_waiting);
    reveal(waits_within);
    let u = Set::new(|x: int| 0 <= x < n && !done[x]);
    assert(u.contains(w));
    assert forall|x: int| #[trigger] u.contains(x) implies exists|p: int|
        u.contains(p) && is_edge(cs, p, x) by {
        let p = choose|p: int| is_edge(cs, p, x) && !done[p];
        let (l2, j2) = choose|l2: int, j2: int|
            0 <= l2 < cs.len() && 1 <= j2 < cs[l2].len() && cs[l2][j2 - 1] == p
                && #[trigger] cs[l2][j2] == x;
        assert(cs[l2][j2 - 1] < n);
        assert(u.contains(p));
    }
}

proof fn lemma_count_all_false(s: Seq<bool>)
    requires
        forall|v: int| 0 <= v < s.len() ==> !(#[trigger] s[v]),
    ensures
        count_false(s) == s.len(),
    decreases s.len(),
{
    if s.len() > 0 {
        let t = s.drop_last();
        assert forall|v: int| 0 <= v < t.len() implies !(#[trigger] t[v]) by {
            assert(t[v] == s[v]);
        }
        lemma_count_all_false(t);
    }
}

} // verus!

//! Merging a comparison's differences: the directions, the report of a
//! pass, and the order in which differences are applied, every difference
//! after the differences it depends on.
use vstd::prelude::*;
use crate::emf_compare::comparison::{Comparison, Dependency, Match};
use crate::emf_compare::diff::{DiffModel, DifferenceState};
use crate::emf_compare::requirement_engine::{compute_requirements, dependency_pairs, edges_upto, kept_edges};
use crate::emf_compare::diff::{Diff, DifferenceSource};
use crate::emf_compare::diff_engine::{lookup, lookup_pair};
use crate::emf_compare::support::{copy_value, value_copy, CompareValue, ObjectFacts};

verus! {

/// Which side a merge copies differences toward.
#[derive(Debug, Clone, Copy, PartialEq, Eq)]
pub enum MergeDirection {
    /// Update the `right` side so it matches `left`.
    LeftToRight,
    /// Update the `left` side so it matches `right`.
    RightToLeft,
}

/// Outcome of a merge pass.
#[derive(Debug, Clone, Copy, PartialEq, Eq)]
pub struct MergeReport {
    /// Differences that were applied (or already satisfied).
    pub applied: usize,
    /// Differences that could not be applied.
    pub skipped: usize,
}

impl Default for MergeReport {
    fn default() -> (r: Self)
        ensures
            r.applied == 0 && r.skipped == 0,
    {
        MergeReport { applied: 0, skipped: 0 }
    }
}

/// The merge engine; all merge state lives on the comparison it works on.
#[derive(Debug, Clone, Copy, Default)]
pub struct MergeEngine;

/// The dependency `d` links two different differences among the first `n`.
pub open spec fn valid_dep(d: (usize, usize), n: nat) -> bool {
    d.0 < n && d.1 < n && d.0 != d.1
}

/// Every difference `x` depends on (through `deps`) is among `done`.
pub open spec fn ready(deps: Seq<(usize, usize)>, n: nat, x: usize, done: Seq<usize>) -> bool {
    forall|j: int| 0 <= j < deps.len() && valid_dep(#[trigger] deps[j], n) && deps[j].0 == x ==> done.contains(deps[j].1)
}

/// `r` orders each of the first `n` differences exactly once.
pub open spec fn is_permutation(r: Seq<usize>, n: nat) -> bool {
    &&& r.len() == n
    &&& r.no_duplicates()
    &&& forall|i: int| 0 <= i < r.len() ==> #[trigger] r[i] < n
}

/// `r` starts with `k` differences each after every difference it depends
/// on, no other difference has all its dependencies among those `k`, and
/// the others follow in increasing order.
pub open spec fn dependency_order(r: Seq<usize>, deps: Seq<(usize, usize)>, n: nat, k: int) -> bool {
    &&& 0 <= k <= r.len()
    &&& forall|p: int| 0 <= p < k ==> ready(deps, n, #[trigger] r[p], r.subrange(0, p))
    &&& forall|x: usize| x < n && !r.subrange(0, k).contains(x) ==> !#[trigger] ready(deps, n, x, r.subrange(0, k))
    &&& forall|p: int, q: int| k <= p < q < r.len() ==> r[p] < r[q]
}

/// The number of dependencies of `x` in `deps` on differences not among
/// `done`.
pub open spec fn pending(deps: Seq<(usize, usize)>, n: nat, x: usize, done: Seq<usize>) -> nat
    decreases deps.len(),
{
    if deps.len() == 0 {
        0
    } else {
        let d = deps.last();
        pending(deps.drop_last(), n, x, done) + if valid_dep(d, n) && d.0 == x && !done.contains(d.1) {
            1nat
        } else {
            0nat
        }
    }
}

/// The number of dependencies of `x` on `t` in `deps`.
pub open spec fn on_count(deps: Seq<(usize, usize)>, n: nat, x: usize, t: usize) -> nat
    decreases deps.len(),
{
    if deps.len() == 0 {
        0
    } else {
        let d = deps.last();
        on_count(deps.drop_last(), n, x, t) + if valid_dep(d, n) && d.0 == x && d.1 == t {
            1nat
        } else {
            0nat
        }
    }
}

/// Nothing is pending exactly when every dependency is among `done`; and a
/// pending count is at most the number of dependencies.
proof fn lemma_pending_ready(deps: Seq<(usize, usize)>, n: nat, x: usize, done: Seq<usize>)
    ensures
        (pending(deps, n, x, done) == 0) <==> ready(deps, n, x, done),
        pending(deps, n, x, done) <= deps.len(),
    decreases deps.len(),
{
    if deps.len() > 0 {
        let p = deps.drop_last();
        lemma_pending_ready(p, n, x, done);
        if ready(deps, n, x, done) {
            assert forall|j: int| 0 <= j < p.len() && valid_dep(#[trigger] p[j], n) && p[j].0 == x implies done.contains(p[j].1) by {
                assert(p[j] == deps[j]);
            }
            assert(deps[deps.len() - 1] == deps.last());
        }
        if pending(deps, n, x, done) == 0 {
            assert forall|j: int| 0 <= j < deps.len() && valid_dep(#[trigger] deps[j], n) && deps[j].0 == x implies done.contains(deps[j].1) by {
                if j < p.len() {
                    assert(p[j] == deps[j]);
                } else {
                    assert(deps[j] == deps.last());
                }
            }
        }
    }
}

/// Taking `t` into `done` (where it was not) removes exactly the
/// dependencies on `t` from the pending ones.
proof fn lemma_pending_step(deps: Seq<(usize, usize)>, n: nat, x: usize, done: Seq<usize>, t: usize)
    requires
        !done.contains(t),
    ensures
        pending(deps, n, x, done) == pending(deps, n, x, done.push(t)) + on_count(deps, n, x, t),
    decreases deps.len(),
{
    if deps.len() > 0 {
        lemma_pending_step(deps.drop_last(), n, x, done, t);
        let d = deps.last();
        assert(done.push(t).contains(d.1) <==> (done.contains(d.1) || d.1 == t)) by {
            if done.push(t).contains(d.1) {
                let i = choose|i: int| 0 <= i < done.push(t).len() && done.push(t)[i] == d.1;
                if i < done.len() {
                    assert(done[i] == d.1);
                }
            }
            if done.contains(d.1) {
                let i = choose|i: int| 0 <= i < done.len() && done[i] == d.1;
                assert(done.push(t)[i] == d.1);
            }
            if d.1 == t {
                assert(done.push(t)[done.len() as int] == t);
            }
        }
    }
}

/// Counting dependencies on `t` over a prefix and one more element.
proof fn lemma_on_count_prefix(deps: Seq<(usize, usize)>, n: nat, x: usize, t: usize, j: int)
    requires
        0 <= j < deps.len(),
    ensures
        on_count(deps.subrange(0, j + 1), n, x, t) == on_count(deps.subrange(0, j), n, x, t) + if valid_dep(deps[j], n)
            && deps[j].0 == x && deps[j].1 == t {
            1nat
        } else {
            0nat
        },
        on_count(deps.subrange(0, j + 1), n, x, t) <= on_count(deps, n, x, t),
    decreases deps.len() - j,
{
    assert(deps.subrange(0, j + 1).drop_last() =~= deps.subrange(0, j));
    if j + 1 < deps.len() {
        lemma_on_count_prefix(deps, n, x, t, j + 1);
    } else {
        assert(deps.subrange(0, j + 1) =~= deps);
    }
}

/// Distinct differences among the first `n` are at most `n`.
proof fn lemma_distinct_below(s: Seq<usize>, n: nat)
    requires
        s.no_duplicates(),
        forall|i: int| 0 <= i < s.len() ==> #[trigger] s[i] < n,
    ensures
        s.len() <= n,
{
    let t = s.map_values(|v: usize| v as int);
    assert(t.no_duplicates()) by {
        assert forall|a: int, b: int| 0 <= a < t.len() && 0 <= b < t.len() && a != b implies t[a] != t[b] by {
            assert(s[a] != s[b]);
        }
    }
    t.unique_seq_to_set();
    vstd::set_lib::lemma_int_range(0, n as int);
    assert(t.to_set().subset_of(vstd::set_lib::set_int_range(0, n as int))) by {
        assert forall|v: int| t.to_set().contains(v) implies vstd::set_lib::set_int_range(0, n as int).contains(v) by {
            let i = choose|i: int| 0 <= i < t.len() && t[i] == v;
            assert(s[i] < n);
        }
    }
    vstd::set_lib::lemma_len_subset(t.to_set(), vstd::set_lib::set_int_range(0, n as int));
}

/// Distinct differences covering all of the first `n` are exactly `n`.
proof fn lemma_distinct_covering(s: Seq<usize>, n: nat)
    requires
        s.no_duplicates(),
        forall|i: int| 0 <= i < s.len() ==> #[trigger] s[i] < n,
        forall|x: usize| x < n ==> s.contains(x),
        n <= usize::MAX,
    ensures
        s.len() == n,
{
    lemma_distinct_below(s, n);
    let t = s.map_values(|v: usize| v as int);
    assert(t.no_duplicates()) by {
        assert forall|a: int, b: int| 0 <= a < t.len() && 0 <= b < t.len() && a != b implies t[a] != t[b] by {
            assert(s[a] != s[b]);
        }
    }
    t.unique_seq_to_set();
    vstd::set_lib::lemma_int_range(0, n as int);
    assert(vstd::set_lib::set_int_range(0, n as int).subset_of(t.to_set())) by {
        assert forall|v: int| vstd::set_lib::set_int_range(0, n as int).contains(v) implies t.to_set().contains(v) by {
            let x = v as usize;
            assert(x as int == v);
            assert(s.contains(x));
            let i = choose|i: int| 0 <= i < s.len() && s[i] == x;
            assert(t[i] == v);
        }
    }
    vstd::set_lib::lemma_len_subset(vstd::set_lib::set_int_range(0, n as int), t.to_set());
}

/// Appending an element not yet present keeps a sequence duplicate-free.
proof fn lemma_push_distinct(s: Seq<usize>, x: usize)
    requires
        s.no_duplicates(),
        !s.contains(x),
    ensures
        s.push(x).no_duplicates(),
{
    assert forall|a: int, b: int| 0 <= a < s.push(x).len() && 0 <= b < s.push(x).len() && a != b implies s.push(x)[a]
        != s.push(x)[b] by {
        if a < s.len() && b < s.len() {
        } else if a < s.len() {
            assert(s[a] != x);
        } else if b < s.len() {
            assert(s[b] != x);
        }
    }
}

/// For each of the first `n` differences, how many of its dependencies are
/// not yet ordered (initially all of them).
fn initial_pending(n: usize, deps: &Vec<(usize, usize)>) -> (indeg: Vec<usize>)
    ensures
        indeg@.len() == n,
        forall|x: usize| x < n ==> #[trigger] indeg@[x as int] == pending(deps@, n as nat, x, Seq::empty()),
{
    let mut indeg: Vec<usize> = Vec::new();
    let mut x: usize = 0;
    while x < n
        invariant
            x <= n,
            indeg@.len() == x,
            forall|y: int| 0 <= y < x ==> indeg@[y] == 0,
        decreases n - x,
    {
        indeg.push(0);
        x += 1;
    }
    let mut j: usize = 0;
    while j < deps.len()
        invariant
            j <= deps@.len(),
            indeg@.len() == n,
            forall|y: usize| y < n ==> #[trigger] indeg@[y as int] == pending(
                deps@.subrange(0, j as int),
                n as nat,
                y,
                Seq::empty(),
            ),
        decreases deps@.len() - j,
    {
        let ghost pre = deps@.subrange(0, j + 1);
        assert(pre.drop_last() =~= deps@.subrange(0, j as int));
        assert(pre.last() == deps@[j as int]);
        let (s, t) = deps[j];
        if s < n && t < n && s != t {
            proof {
                lemma_pending_ready(deps@.subrange(0, j as int), n as nat, s, Seq::empty());
            }
            indeg.set(s, indeg[s] + 1);
        }
        j += 1;
    }
    assert(deps@.subrange(0, deps@.len() as int) =~= deps@);
    indeg
}

/// The order in which the first `n` differences are merged given the
/// dependencies `deps` (`(source, target)`: `source` after `target`):
/// breadth-first from the differences with no dependency, each taken once
/// every difference it depends on is taken; those never taken (on or after
/// a dependency cycle) follow in increasing order.
pub fn merge_order(n: usize, deps: &Vec<(usize, usize)>) -> (r: Vec<usize>)
    ensures
        is_permutation(r@, n as nat),
        exists|k: int| #![trigger dependency_order(r@, deps@, n as nat, k)] dependency_order(r@, deps@, n as nat, k),
{
    let ghost pairs = deps@;
    let ghost nn = n as nat;
    let mut indeg = initial_pending(n, deps);
    let mut queue: Vec<usize> = Vec::new();
    let mut in_queue: Vec<bool> = Vec::new();
    let mut x: usize = 0;
    while x < n
        invariant
            x <= n,
            indeg@.len() == n,
            in_queue@.len() == x,
            queue@.no_duplicates(),
            forall|i: int| 0 <= i < queue@.len() ==> #[trigger] queue@[i] < x,
            forall|y: usize| y < x ==> #[trigger] in_queue@[y as int] == queue@.contains(y),
            forall|y: usize| y < x ==> #[trigger] in_queue@[y as int] == (indeg@[y as int] == 0),
        decreases n - x,
    {
        if indeg[x] == 0 {
            proof {
                lemma_push_distinct(queue@, x);
            }
            let ghost q0 = queue@;
            queue.push(x);
            in_queue.push(true);
            proof {
                assert forall|y: usize| y < x + 1 implies #[trigger] in_queue@[y as int] == queue@.contains(y) by {
                    if y < x {
                        if q0.contains(y) {
                            let i = choose|i: int| 0 <= i < q0.len() && q0[i] == y;
                            assert(queue@[i] == y);
                        }
                        if queue@.contains(y) {
                            let i = choose|i: int| 0 <= i < queue@.len() && queue@[i] == y;
                            if i < q0.len() {
                                assert(q0[i] == y);
                            }
                        }
                    } else {
                        assert(queue@[q0.len() as int] == x);
                    }
                }
            }
        } else {
            in_queue.push(false);
            proof {
                assert forall|y: usize| y < x + 1 implies #[trigger] in_queue@[y as int] == queue@.contains(y) by {
                    if y == x {
                        if queue@.contains(y) {
                            let i = choose|i: int| 0 <= i < queue@.len() && queue@[i] == y;
                        }
                    }
                }
            }
        }
        x += 1;
    }
    proof {
        lemma_distinct_below(queue@, nn);
        assert(Seq::<usize>::empty() =~= queue@.subrange(0, 0));
    }
    let mut out: Vec<usize> = Vec::new();
    let mut head: usize = 0;
    while head < queue.len()
        invariant
            nn == n,
            pairs == deps@,
            indeg@.len() == n,
            in_queue@.len() == n,
            queue@.no_duplicates(),
            forall|i: int| 0 <= i < queue@.len() ==> #[trigger] queue@[i] < n,
            forall|y: usize| y < n ==> #[trigger] in_queue@[y as int] == queue@.contains(y),
            forall|y: usize| y < n ==> #[trigger] in_queue@[y as int] == (indeg@[y as int] == 0),
            forall|y: usize| y < n ==> #[trigger] indeg@[y as int] == pending(pairs, nn, y, out@),
            head <= queue@.len(),
            queue@.len() <= n,
            out@ == queue@.subrange(0, head as int),
            forall|p: int| 0 <= p < head ==> ready(pairs, nn, #[trigger] out@[p], out@.subrange(0, p)),
        decreases n - head,
    {
        let i = queue[head];
        proof {
            assert(in_queue@[i as int]) by {
                assert(queue@[head as int] == i);
            }
            lemma_pending_ready(pairs, nn, i, out@);
            assert(!out@.contains(i)) by {
                if out@.contains(i) {
                    let a = choose|a: int| 0 <= a < out@.len() && out@[a] == i;
                    assert(queue@[a] == queue@[head as int]);
                }
            }
        }
        let ghost done0 = out@;
        out.push(i);
        head += 1;
        proof {
            assert(out@ =~= queue@.subrange(0, head as int));
            assert forall|p: int| 0 <= p < head implies ready(pairs, nn, #[trigger] out@[p], out@.subrange(0, p)) by {
                if p < head - 1 {
                    assert(out@.subrange(0, p) =~= done0.subrange(0, p));
                    assert(out@[p] == done0[p]);
                } else {
                    assert(out@.subrange(0, p) =~= done0);
                }
            }
            assert forall|y: usize| y < n implies #[trigger] indeg@[y as int] + on_count(pairs.subrange(0, 0), nn, y, i)
                == pending(pairs, nn, y, out@) + on_count(pairs, nn, y, i) by {
                lemma_pending_step(pairs, nn, y, done0, i);
                assert(pairs.subrange(0, 0).len() == 0);
            }
        }
        let mut j: usize = 0;
        while j < deps.len()
            invariant
                nn == n,
                pairs == deps@,
                i < n,
                indeg@.len() == n,
                in_queue@.len() == n,
                queue@.no_duplicates(),
                forall|a: int| 0 <= a < queue@.len() ==> #[trigger] queue@[a] < n,
                forall|y: usize| y < n ==> #[trigger] in_queue@[y as int] == queue@.contains(y),
                forall|y: usize| y < n ==> #[trigger] in_queue@[y as int] == (indeg@[y as int] == 0),
                j <= pairs.len(),
                forall|y: usize|
                    y < n ==> #[trigger] indeg@[y as int] + on_count(pairs.subrange(0, j as int), nn, y, i) == pending(
                        pairs,
                        nn,
                        y,
                        out@,
                    ) + on_count(pairs, nn, y, i),
                head <= queue@.len(),
                queue@.len() <= n,
                out@ == queue@.subrange(0, head as int),
                forall|p: int| 0 <= p < head ==> ready(pairs, nn, #[trigger] out@[p], out@.subrange(0, p)),
            decreases pairs.len() - j,
        {
            let (s, t) = deps[j];
            proof {
                assert forall|y: usize| y < n implies on_count(pairs.subrange(0, j + 1), nn, y, i) == on_count(
                    pairs.subrange(0, j as int),
                    nn,
                    y,
                    i,
                ) + (if valid_dep(pairs[j as int], nn) && pairs[j as int].0 == y && pairs[j as int].1 == i {
                    1nat
                } else {
                    0nat
                }) && on_count(pairs.subrange(0, j + 1), nn, y, i) <= on_count(pairs, nn, y, i) by {
                    lemma_on_count_prefix(pairs, nn, y, i, j as int);
                }
            }
            if s < n && t < n && s != t && t == i {
                proof {
                    assert(on_count(pairs.subrange(0, j + 1), nn, s, i) <= on_count(pairs, nn, s, i));
                    assert(indeg@[s as int] + on_count(pairs.subrange(0, j as int), nn, s, i) == pending(pairs, nn, s, out@)
                        + on_count(pairs, nn, s, i));
                    assert(indeg@[s as int] >= 1);
                    assert(!in_queue@[s as int]);
                    assert(!queue@.contains(s));
                }
                let v = indeg[s] - 1;
                indeg.set(s, v);
                if v == 0 {
                    proof {
                        lemma_push_distinct(queue@, s);
                    }
                    let ghost q0 = queue@;
                    queue.push(s);
                    in_queue.set(s, true);
                    proof {
                        lemma_distinct_below(queue@, nn);
                        assert(queue@.subrange(0, head as int) =~= q0.subrange(0, head as int));
                        assert forall|y: usize| y < n implies #[trigger] in_queue@[y as int] == queue@.contains(y) by {
                            if q0.contains(y) {
                                let a = choose|a: int| 0 <= a < q0.len() && q0[a] == y;
                                assert(queue@[a] == y);
                            }
                            if queue@.contains(y) {
                                let a = choose|a: int| 0 <= a < queue@.len() && queue@[a] == y;
                                if a < q0.len() {
                                    assert(q0[a] == y);
                                }
                            }
                            if y == s {
                                assert(queue@[q0.len() as int] == s);
                            }
                        }
                    }
                }
            }
            j += 1;
        }
        proof {
            assert(pairs.subrange(0, pairs.len() as int) =~= pairs);
        }
    }
    let ghost k = out@.len();
    let ghost bfs = out@;
    proof {
        assert(queue@.subrange(0, head as int) =~= queue@);
        assert(bfs =~= queue@);
        assert forall|y: usize| y < n && !bfs.contains(y) implies !#[trigger] ready(pairs, nn, y, bfs) by {
            assert(!in_queue@[y as int]);
            assert(indeg@[y as int] == pending(pairs, nn, y, bfs));
            lemma_pending_ready(pairs, nn, y, bfs);
        }
    }
    let mut x: usize = 0;
    while x < n
        invariant
            nn == n,
            pairs == deps@,
            in_queue@.len() == n,
            forall|y: usize| y < n ==> #[trigger] in_queue@[y as int] == bfs.contains(y),
            bfs.no_duplicates(),
            forall|i: int| 0 <= i < bfs.len() ==> #[trigger] bfs[i] < n,
            k == bfs.len(),
            k <= out@.len(),
            out@.subrange(0, k as int) == bfs,
            x <= n,
            out@.no_duplicates(),
            forall|i: int| 0 <= i < out@.len() ==> #[trigger] out@[i] < n,
            forall|y: usize| y < x ==> #[trigger] out@.contains(y),
            forall|p: int| k <= p < out@.len() ==> #[trigger] out@[p] < x && !bfs.contains(out@[p]),
            forall|p: int, q: int| k <= p < q < out@.len() ==> out@[p] < out@[q],
        decreases n - x,
    {
        let ghost o0 = out@;
        if !in_queue[x] {
            proof {
                assert(!o0.contains(x)) by {
                    if o0.contains(x) {
                        let a = choose|a: int| 0 <= a < o0.len() && o0[a] == x;
                        if a < k {
                            assert(o0.subrange(0, k as int)[a] == x);
                        }
                    }
                }
                lemma_push_distinct(o0, x);
            }
            out.push(x);
            proof {
                assert(out@.subrange(0, k as int) =~= o0.subrange(0, k as int));
                assert(out@[o0.len() as int] == x);
            }
        } else {
            proof {
                let a = choose|a: int| 0 <= a < bfs.len() && bfs[a] == x;
                assert(o0.subrange(0, k as int)[a] == x);
                assert(o0[a] == x);
            }
        }
        proof {
            assert forall|y: usize| y < x + 1 implies out@.contains(y) by {
                if y < x {
                    assert(o0.contains(y));
                    let a = choose|a: int| 0 <= a < o0.len() && o0[a] == y;
                    assert(out@[a] == y);
                } else if in_queue@[x as int] {
                    let a = choose|a: int| 0 <= a < bfs.len() && bfs[a] == x;
                    assert(o0.subrange(0, k as int)[a] == x);
                    assert(out@[a] == x);
                }
            }
        }
        x += 1;
    }
    proof {
        lemma_distinct_covering(out@, nn);
        assert forall|p: int| 0 <= p < k implies ready(pairs, nn, #[trigger] out@[p], out@.subrange(0, p)) by {
            assert(out@.subrange(0, p) =~= bfs.subrange(0, p));
            assert(out@[p] == bfs[p]);
        }
        assert(dependency_order(out@, pairs, nn, k as int));
    }
    out
}

/// Some ranking strictly decreases along every dependency: the
/// dependencies have no cycle.
pub open spec fn ranked(deps: Seq<(usize, usize)>, n: nat, rank: spec_fn(usize) -> nat) -> bool {
    forall|j: int| 0 <= j < deps.len() && valid_dep(#[trigger] deps[j], n) ==> rank(deps[j].1) < rank(deps[j].0)
}

/// Under a ranking, every difference is in a dependency order's first part:
/// one outside it would start an endless chain of dependencies outside it.
proof fn lemma_all_taken(r: Seq<usize>, deps: Seq<(usize, usize)>, n: nat, k: int, rank: spec_fn(usize) -> nat, x: usize)
    requires
        dependency_order(r, deps, n, k),
        ranked(deps, n, rank),
        x < n,
    ensures
        r.subrange(0, k).contains(x),
    decreases rank(x),
{
    if !r.subrange(0, k).contains(x) {
        assert(!ready(deps, n, x, r.subrange(0, k)));
        let j = choose|j: int|
            0 <= j < deps.len() && valid_dep(#[trigger] deps[j], n) && deps[j].0 == x && !r.subrange(0, k).contains(
                deps[j].1,
            );
        lemma_all_taken(r, deps, n, k, rank, deps[j].1);
    }
}

/// With no dependency cycle, the merge order takes every difference after
/// all the differences it depends on.
pub proof fn lemma_acyclic_merge_order(r: Seq<usize>, deps: Seq<(usize, usize)>, n: nat, k: int, rank: spec_fn(usize) -> nat)
    requires
        is_permutation(r, n),
        dependency_order(r, deps, n, k),
        ranked(deps, n, rank),
    ensures
        k == n,
        forall|p: int| 0 <= p < n ==> ready(deps, n, #[trigger] r[p], r.subrange(0, p)),
{
    if k < n {
        let x = r[k];
        assert(!r.subrange(0, k).contains(x)) by {
            if r.subrange(0, k).contains(x) {
                let a = choose|a: int| 0 <= a < k && r.subrange(0, k)[a] == x;
                assert(r[a] == r[k]);
            }
        }
        lemma_all_taken(r, deps, n, k, rank, x);
    }
}

/// The `(source, target)` pairs of `deps` (computed).
fn dependency_pair_list(deps: &[Dependency]) -> (r: Vec<(usize, usize)>)
    ensures
        r@ == dependency_pairs(deps@),
{
    let mut out: Vec<(usize, usize)> = Vec::new();
    let mut i: usize = 0;
    while i < deps.len()
        invariant
            i <= deps@.len(),
            out@ == dependency_pairs(deps@.subrange(0, i as int)),
        decreases deps@.len() - i,
    {
        out.push((deps[i].source(), deps[i].target()));
        assert(dependency_pairs(deps@.subrange(0, i + 1)) =~= dependency_pairs(deps@.subrange(0, i as int)).push(
            (deps@[i as int].source_spec(), deps@[i as int].target_spec()),
        ));
        i += 1;
    }
    assert(deps@.subrange(0, deps@.len() as int) =~= deps@);
    out
}

/// The order in which the comparison's differences are merged, given its
/// dependencies (see `merge_order`).
pub fn topo_order<V, S>(comparison: &Comparison<V, S>) -> (r: Vec<usize>)
    ensures
        is_permutation(r@, comparison.differences_spec().len()),
        exists|k: int|
            #![trigger dependency_order(r@, dependency_pairs(comparison.dependencies_spec()), comparison.differences_spec().len(), k)]
            dependency_order(r@, dependency_pairs(comparison.dependencies_spec()), comparison.differences_spec().len(), k),
{
    let pairs = dependency_pair_list(comparison.dependencies());
    merge_order(comparison.differences().len(), &pairs)
}

/// The `(source, goal)` object pairs of the matches with both sides, in
/// match order: the side a merge copies from first.
pub open spec fn merge_pairs_spec<S>(ms: Seq<Match<S>>, direction: MergeDirection) -> Seq<(usize, usize)>
    decreases ms.len(),
{
    if ms.len() == 0 {
        Seq::empty()
    } else {
        let p = merge_pairs_spec(ms.drop_last(), direction);
        let m = ms.last();
        let (src, dst) = match direction {
            MergeDirection::RightToLeft => (m.right_spec(), m.left_spec()),
            MergeDirection::LeftToRight => (m.left_spec(), m.right_spec()),
        };
        if src is Some && dst is Some {
            p.push((src->0, dst->0))
        } else {
            p
        }
    }
}

impl MergeEngine {
    /// The objects a merge in `direction` maps onto each other: for each
    /// match with both sides, its source-side object and its goal-side
    /// object (right to left: right then left; left to right: left then
    /// right).
    pub fn merge_pairs<V, S>(comparison: &Comparison<V, S>, direction: MergeDirection) -> (r: Vec<(usize, usize)>)
        ensures
            r@ == merge_pairs_spec(comparison.matches_spec(), direction),
    {
        let ms = comparison.matches();
        let mut out: Vec<(usize, usize)> = Vec::new();
        let mut i: usize = 0;
        while i < ms.len()
            invariant
                ms@ == comparison.matches_spec(),
                i <= ms@.len(),
                out@ == merge_pairs_spec(ms@.subrange(0, i as int), direction),
            decreases ms@.len() - i,
        {
            let ghost pre = ms@.subrange(0, i + 1);
            assert(pre.drop_last() =~= ms@.subrange(0, i as int));
            let m = &ms[i];
            let (src, dst) = match direction {
                MergeDirection::RightToLeft => (m.right(), m.left()),
                MergeDirection::LeftToRight => (m.left(), m.right()),
            };
            if let (Some(a), Some(b)) = (src, dst) {
                out.push((a, b));
            }
            i += 1;
        }
        assert(ms@.subrange(0, ms@.len() as int) =~= ms@);
        out
    }

    /// Prepare a merge: replace the comparison's dependencies with those
    /// `compute_requirements` finds (`graph` gives the objects each compared
    /// object contains) and return the order in which to apply the
    /// differences.
    pub fn merge_plan<D, S>(comparison: &mut Comparison<CompareValue<D>, S>, graph: &Vec<ObjectFacts<D>>) -> (r: Vec<usize>)
        ensures
            dependency_pairs(final(comparison).dependencies_spec()) == kept_edges(
                edges_upto(old(comparison).differences_spec(), old(comparison).matches_spec(), graph@, old(comparison).differences_spec().len()),
            ),
            is_permutation(r@, old(comparison).differences_spec().len()),
            exists|k: int|
                #![trigger dependency_order(r@, dependency_pairs(final(comparison).dependencies_spec()), old(comparison).differences_spec().len(), k)]
                dependency_order(r@, dependency_pairs(final(comparison).dependencies_spec()), old(comparison).differences_spec().len(), k),
            final(comparison).matches_spec() == old(comparison).matches_spec(),
            final(comparison).differences_spec() == old(comparison).differences_spec(),
            final(comparison).conflicts_spec() == old(comparison).conflicts_spec(),
            final(comparison).equivalences_spec() == old(comparison).equivalences_spec(),
            final(comparison).three_way_spec() == old(comparison).three_way_spec(),
    {
        compute_requirements(comparison, graph);
        topo_order(comparison)
    }

    /// Whether the difference at `idx` is still to be merged (a missing
    /// difference is not).
    pub fn is_pending<V, S>(comparison: &Comparison<V, S>, idx: usize) -> (r: bool)
        ensures
            r == (idx < comparison.differences_spec().len() && comparison.differences_spec()[idx as int]@.state is Pending),
    {
        match comparison.diff_at(idx) {
            Some(d) => matches!(d.state(), DifferenceState::Pending),
            None => false,
        }
    }

    /// Record the outcome of applying the difference at `idx`: an applied
    /// difference is counted as applied and marked merged, any other as
    /// skipped.
    pub fn record_outcome<V, S>(comparison: &mut Comparison<V, S>, idx: usize, applied: bool, report: &mut MergeReport)
        requires
            applied ==> old(report).applied < usize::MAX,
            !applied ==> old(report).skipped < usize::MAX,
        ensures
            applied ==> final(report).applied == old(report).applied + 1 && final(report).skipped == old(report).skipped,
            !applied ==> final(report).skipped == old(report).skipped + 1 && final(report).applied == old(report).applied,
            final(comparison).differences_spec().len() == old(comparison).differences_spec().len(),
            forall|i: int|
                0 <= i < old(comparison).differences_spec().len() ==> #[trigger] final(comparison).differences_spec()[i]@ == if applied
                    && i == idx {
                    DiffModel { state: DifferenceState::Merged, ..old(comparison).differences_spec()[i]@ }
                } else {
                    old(comparison).differences_spec()[i]@
                },
            final(comparison).matches_spec() == old(comparison).matches_spec(),
            final(comparison).conflicts_spec() == old(comparison).conflicts_spec(),
            final(comparison).equivalences_spec() == old(comparison).equivalences_spec(),
            final(comparison).dependencies_spec() == old(comparison).dependencies_spec(),
            final(comparison).three_way_spec() == old(comparison).three_way_spec(),
    {
        if applied {
            report.applied = report.applied + 1;
            let ds = comparison.differences_mut();
            if idx < ds.len() {
                let mut d = ds.remove(idx);
                d.set_state(DifferenceState::Merged);
                ds.insert(idx, d);
            }
        } else {
            report.skipped = report.skipped + 1;
        }
    }
}

/// The value a change converges to in `direction`: its new value when the
/// side that produced it is the side merged from, its old value otherwise;
/// none for a change without feature name.
pub open spec fn change_goal_spec<V>(d: DiffModel<V>, direction: MergeDirection) -> Option<V> {
    if d.attribute_name.len() == 0 {
        None
    } else {
        let use_new = match direction {
            MergeDirection::LeftToRight => d.source is Left,
            MergeDirection::RightToLeft => d.source is Right,
        };
        if use_new {
            d.new_value
        } else {
            d.old_value
        }
    }
}

/// The value a change converges to when merged in `direction`.
pub fn change_goal<V>(diff: &Diff<V>, direction: MergeDirection) -> (r: Option<&V>)
    ensures
        r == match change_goal_spec(diff@, direction) {
            Some(v) => Some(&v),
            None => None::<&V>,
        },
{
    if diff.attribute_name().is_empty() {
        return None;
    }
    let toward_left = matches!(diff.source(), DifferenceSource::Left);
    let use_new = match direction {
        MergeDirection::LeftToRight => toward_left,
        MergeDirection::RightToLeft => !toward_left,
    };
    if use_new {
        diff.new_value()
    } else {
        diff.old_value()
    }
}

/// The object `o` stands for on the goal side: its counterpart in `map`
/// when it has one, itself otherwise.
pub open spec fn remap_key(map: Seq<(usize, usize)>, o: usize) -> usize {
    match lookup(map, o) {
        Some(m) => m,
        None => o,
    }
}

/// `b` is `a` with every object replaced by its goal-side counterpart (data
/// being a clone).
pub open spec fn remapped<D: Clone>(map: Seq<(usize, usize)>, a: CompareValue<D>, b: CompareValue<D>) -> bool {
    match a {
        CompareValue::Object(o) => b == CompareValue::<D>::Object(remap_key(map, o)),
        CompareValue::List(os) => b matches CompareValue::List(ms) && ms@ == os@.map_values(|o: usize| remap_key(map, o)),
        _ => value_copy(a, b),
    }
}

/// `v` with every object replaced by its goal-side counterpart, given the
/// pairs `(source-side object, goal-side object)` of `map`.
pub fn remap_value<D: Clone>(v: &CompareValue<D>, map: &Vec<(usize, usize)>) -> (r: CompareValue<D>)
    ensures
        remapped(map@, *v, r),
{
    match v {
        CompareValue::Object(o) => CompareValue::Object(
            match lookup_pair(map, *o) {
                Some(m) => m,
                None => *o,
            },
        ),
        CompareValue::List(os) => {
            let mut out: Vec<usize> = Vec::new();
            let mut i: usize = 0;
            while i < os.len()
                invariant
                    i <= os@.len(),
                    out@ == os@.subrange(0, i as int).map_values(|o: usize| remap_key(map@, o)),
                decreases os@.len() - i,
            {
                let m = match lookup_pair(map, os[i]) {
                    Some(m) => m,
                    None => os[i],
                };
                out.push(m);
                assert(os@.subrange(0, i + 1).map_values(|o: usize| remap_key(map@, o)) =~= os@.subrange(0, i as int).map_values(
                    |o: usize| remap_key(map@, o),
                ).push(m));
                i += 1;
            }
            assert(os@.subrange(0, os@.len() as int) =~= os@);
            CompareValue::List(out)
        },
        _ => copy_value(v),
    }
}

/// The first position of `x` in `s`.
pub open spec fn first_index(s: Seq<usize>, x: usize) -> Option<int> {
    if s.contains(x) {
        Some(choose|i: int| 0 <= i < s.len() && s[i] == x && forall|j: int| 0 <= j < i ==> s[j] != x)
    } else {
        None
    }
}

/// `i` clamped into `0 ..= hi`.
pub open spec fn clamp_index(i: int, hi: int) -> int {
    if i < 0 {
        0
    } else if i > hi {
        hi
    } else {
        i
    }
}

/// The list `l` after moving its first `moved` to position `new_index`
/// (clamped into the list); none when `moved` is not in it or already there.
pub open spec fn move_in_list_spec(l: Seq<usize>, moved: usize, new_index: i32) -> Option<Seq<usize>> {
    match first_index(l, moved) {
        None => None,
        Some(si) => {
            let ni = clamp_index(new_index as int, l.len() - 1);
            if si == ni {
                None
            } else {
                Some(l.remove(si).insert(ni, moved))
            }
        },
    }
}

/// The first position of `x` in `list` (computed).
fn find_first(list: &Vec<usize>, x: usize) -> (r: Option<usize>)
    ensures
        r matches Some(i) ==> first_index(list@, x) == Some(i as int) && i < list@.len() && list@[i as int] == x,
        r is None ==> first_index(list@, x) is None,
{
    let mut i: usize = 0;
    while i < list.len()
        invariant
            i <= list@.len(),
            forall|j: int| 0 <= j < i ==> list@[j] != x,
        decreases list@.len() - i,
    {
        if list[i] == x {
            proof {
                assert(list@.contains(x));
                let c = choose|c: int| 0 <= c < list@.len() && list@[c] == x && forall|j: int| 0 <= j < c ==> list@[j] != x;
                if c < i {
                } else if c > i {
                    assert(list@[i as int] == x);
                }
                assert(c == i);
            }
            return Some(i);
        }
        i += 1;
    }
    None
}

/// Reorder the list `list` of a many-valued reference so its first
/// `moved` sits at `new_index` (clamped into the list); `None` when `moved`
/// is not in the list or already at that position.
pub fn move_in_list(list: &Vec<usize>, moved: usize, new_index: i32) -> (r: Option<Vec<usize>>)
    requires
        list@.len() <= i32::MAX,
    ensures
        match move_in_list_spec(list@, moved, new_index) {
            Some(s) => r matches Some(v) && v@ == s,
            None => r is None,
        },
{
    let si = match find_first(list, moved) {
        Some(i) => i,
        None => {
            return None;
        },
    };
    let ghost spec_si = first_index(list@, moved);
    assert(spec_si == Some(si as int));
    let n = list.len();
    let hi: i32 = (n - 1) as i32;
    assert(hi as int == list@.len() - 1);
    let ni: usize = if new_index < 0 {
        0
    } else if new_index > hi {
        hi as usize
    } else {
        new_index as usize
    };
    assert(ni as int == clamp_index(new_index as int, list@.len() - 1));
    if si == ni {
        return None;
    }
    let mut v = list.clone();
    assert(v@ =~= list@);
    let x = v.remove(si);
    assert(x == moved);
    v.insert(ni, x);
    assert(v@ == list@.remove(si as int).insert(ni as int, moved));
    Some(v)
}

} // verus!

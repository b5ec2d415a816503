//! Reflection over a [`ClassRegistry`]: the transitive super types of a
//! class, its features in ancestor-first order, the super-type relation,
//! cycle counting, name lookups and reading or writing features of a
//! reflective object.
use vstd::prelude::*;
use crate::autosar448_model::registry::ClassRegistry;
use crate::text::{chars_eq, chars_of};

verus! {

/// `b` is a direct super type of class `a`.
pub open spec fn edge(reg: &ClassRegistry, a: u32, b: u32) -> bool {
    (a as int) < reg.n() && reg.sups_of(a).contains(b)
}

/// `p` follows super-type edges from each element to the next.
pub open spec fn is_path(reg: &ClassRegistry, p: Seq<u32>) -> bool
    decreases p.len(),
{
    p.len() <= 1 || (edge(reg, p[0], p[1]) && is_path(reg, p.drop_first()))
}

/// No element of `p` after the first is in `avoid`.
pub open spec fn avoids(p: Seq<u32>, avoid: Set<u32>) -> bool {
    forall|k: int| 1 <= k < p.len() ==> !avoid.contains(#[trigger] p[k])
}

/// `to` is reached from `from` through one or more super-type edges without
/// passing through (or ending in) a class of `avoid`.
pub open spec fn reaches_avoiding(reg: &ClassRegistry, from: u32, to: u32, avoid: Set<u32>) -> bool {
    exists|p: Seq<u32>|
        #[trigger] is_path(reg, p) && p.len() >= 2 && p[0] == from && p.last() == to && avoids(
            p,
            avoid,
        )
}

/// The transitive super types of `id` (not `id` itself, unless it lies on
/// an inheritance cycle).
pub open spec fn ancestors(reg: &ClassRegistry, id: u32) -> Set<u32> {
    Set::new(|t: u32| reaches_avoiding(reg, id, t, Set::empty()))
}

/// A single edge is a path.
proof fn lemma_edge_reaches(reg: &ClassRegistry, id: u32, s: u32, avoid: Set<u32>)
    requires
        edge(reg, id, s),
        !avoid.contains(s),
    ensures
        reaches_avoiding(reg, id, s, avoid),
{
    let p = seq![id, s];
    assert(p.drop_first() == seq![s]);
    assert(is_path(reg, p.drop_first()));
    assert(is_path(reg, p));
    assert(avoids(p, avoid));
}

/// A path can be extended backwards by one edge.
proof fn lemma_extend_reaches(reg: &ClassRegistry, id: u32, s: u32, t: u32, a: Set<u32>, b: Set<u32>)
    requires
        reaches_avoiding(reg, s, t, a),
        edge(reg, id, s),
        !b.contains(s),
        b.subset_of(a),
    ensures
        reaches_avoiding(reg, id, t, b),
{
    let p = choose|p: Seq<u32>|
        #[trigger] is_path(reg, p) && p.len() >= 2 && p[0] == s && p.last() == t && avoids(p, a);
    let q = seq![id] + p;
    assert(q.drop_first() == p);
    assert(q[1] == s);
    assert(is_path(reg, q));
    assert forall|k: int| 1 <= k < q.len() implies !b.contains(#[trigger] q[k]) by {
        if k > 1 {
            assert(q[k] == p[k - 1]);
        }
    }
    assert(q.last() == t);
}

/// Along a path that starts in `f` outside `a` and avoids `a`, a sequence
/// `f` closed under super types outside `a` contains the path's end.
proof fn lemma_path_in(reg: &ClassRegistry, p: Seq<u32>, f: Seq<u32>, a: Set<u32>)
    requires
        is_path(reg, p),
        p.len() >= 1,
        f.contains(p[0]),
        !a.contains(p[0]),
        avoids(p, a),
        forall|t: u32, s: u32|
            f.contains(t) && !a.contains(t) && #[trigger] edge(reg, t, s) ==> f.contains(s),
    ensures
        f.contains(p.last()),
    decreases p.len(),
{
    if p.len() > 1 {
        assert(edge(reg, p[0], p[1]));
        let q = p.drop_first();
        assert(!a.contains(p[1]));
        assert forall|k: int| 1 <= k < q.len() implies !a.contains(#[trigger] q[k]) by {
            assert(q[k] == p[k + 1]);
        }
        lemma_path_in(reg, q, f, a);
    }
}

/// What a super-type walk from `id` collects, when it holds every super
/// type of `id` and is closed under super types outside `a`: everything
/// reachable from `id` avoiding `a`.
proof fn lemma_closed_reach(reg: &ClassRegistry, id: u32, t: u32, f: Seq<u32>, a: Set<u32>)
    requires
        reaches_avoiding(reg, id, t, a),
        forall|s: u32| #[trigger] edge(reg, id, s) ==> f.contains(s),
        forall|x: u32, s: u32|
            f.contains(x) && !a.contains(x) && #[trigger] edge(reg, x, s) ==> f.contains(s),
    ensures
        f.contains(t),
{
    let p = choose|p: Seq<u32>|
        #[trigger] is_path(reg, p) && p.len() >= 2 && p[0] == id && p.last() == t && avoids(p, a);
    assert(edge(reg, p[0], p[1]));
    let q = p.drop_first();
    assert(!a.contains(p[1]));
    assert forall|k: int| 1 <= k < q.len() implies !a.contains(#[trigger] q[k]) by {
        assert(q[k] == p[k + 1]);
    }
    lemma_path_in(reg, q, f, a);
}

/// Number of class ids below `k` that `s` does not hold.
pub open spec fn missing(s: Seq<u32>, k: int) -> nat
    decreases k,
{
    if k <= 0 {
        0
    } else {
        missing(s, k - 1) + if s.contains((k - 1) as u32) {
            0nat
        } else {
            1nat
        }
    }
}

/// Holding more ids leaves fewer missing, strictly fewer when an id below
/// `k` is gained.
proof fn lemma_missing_mono(s1: Seq<u32>, s2: Seq<u32>, k: int, x: u32)
    requires
        0 <= k <= u32::MAX + 1,
        forall|y: u32| s1.contains(y) ==> s2.contains(y),
    ensures
        missing(s2, k) <= missing(s1, k),
        (x as int) < k && s2.contains(x) && !s1.contains(x) ==> missing(s2, k) < missing(s1, k),
    decreases k,
{
    if k > 0 {
        lemma_missing_mono(s1, s2, k - 1, x);
        if (x as int) == k - 1 {
            assert(((k - 1) as u32) == x);
        }
    }
}

/// Whether `v` holds `x` (computed).
fn holds(v: &Vec<u32>, x: u32) -> (r: bool)
    ensures
        r == v@.contains(x),
{
    let mut i: usize = 0;
    while i < v.len()
        invariant
            i <= v@.len(),
            forall|j: int| 0 <= j < i ==> v@[j] != x,
        decreases v@.len() - i,
    {
        if v[i] == x {
            return true;
        }
        i += 1;
    }
    false
}

/// Append to `out` the transitive super types of `id` that `out` does not
/// hold yet, walking depth-first from `id` and not walking past ids already
/// in `out`. With an empty `out` this collects all ancestors of `id`, each
/// once; their order is the walk's and is not otherwise specified.
pub fn all_super_ids(reg: &ClassRegistry, id: u32, out: &mut Vec<u32>)
    requires
        reg.wf(),
        (id as int) < reg.n(),
    ensures
        final(out)@.len() >= old(out)@.len(),
        final(out)@.subrange(0, old(out)@.len() as int) == old(out)@,
        forall|j: int|
            old(out)@.len() <= j < final(out)@.len() ==> {
                &&& !old(out)@.contains(#[trigger] final(out)@[j])
                &&& (final(out)@[j] as int) < reg.n()
                &&& reaches_avoiding(reg, id, final(out)@[j], old(out)@.to_set())
            },
        forall|i: int, j: int|
            old(out)@.len() <= i < j < final(out)@.len() ==> final(out)@[i] != final(out)@[j],
        forall|s: u32| #[trigger] edge(reg, id, s) ==> final(out)@.contains(s),
        forall|x: u32, s: u32|
            final(out)@.contains(x) && !old(out)@.contains(x) && #[trigger] edge(reg, x, s)
                ==> final(out)@.contains(s),
        forall|t: u32|
            reaches_avoiding(reg, id, t, old(out)@.to_set()) ==> #[trigger] final(out)@.contains(t),
    decreases missing(old(out)@, reg.n()),
{
    let ghost start = out@;
    let sups = &reg.classes[id as usize].sups;
    let mut k: usize = 0;
    while k < sups.len()
        invariant
            reg.wf(),
            (id as int) < reg.n(),
            start == old(out)@,
            *sups == reg.classes@[id as int].sups,
            k <= sups@.len(),
            out@.len() >= start.len(),
            out@.subrange(0, start.len() as int) == start,
            forall|j: int|
                start.len() <= j < out@.len() ==> {
                    &&& !start.contains(#[trigger] out@[j])
                    &&& (out@[j] as int) < reg.n()
                    &&& reaches_avoiding(reg, id, out@[j], start.to_set())
                },
            forall|i: int, j: int| start.len() <= i < j < out@.len() ==> out@[i] != out@[j],
            forall|j: int| 0 <= j < k ==> out@.contains(#[trigger] sups@[j]),
            forall|x: u32, s: u32|
                out@.contains(x) && !start.contains(x) && #[trigger] edge(reg, x, s)
                    ==> out@.contains(s),
            forall|y: u32| start.contains(y) ==> out@.contains(y),
        decreases sups@.len() - k,
    {
        let s = sups[k];
        assert(edge(reg, id, s));
        assert((s as int) < reg.n());
        if !holds(out, s) {
            let ghost before = out@;
            out.push(s);
            let ghost pushed = out@;
            proof {
                assert(pushed[before.len() as int] == s);
                assert(pushed.contains(s));
                assert forall|y: u32| start.contains(y) implies pushed.contains(y) by {
                    assert(before.contains(y));
                    let j = choose|j: int| 0 <= j < before.len() && before[j] == y;
                    assert(pushed[j] == y);
                }
                assert(!start.contains(s));
                lemma_missing_mono(start, pushed, reg.n(), s);
            }
            all_super_ids(reg, s, out);
            proof {
                let fin = out@;
                assert forall|y: u32| pushed.contains(y) implies fin.contains(y) by {
                    let j = choose|j: int| 0 <= j < pushed.len() && pushed[j] == y;
                    assert(fin.subrange(0, pushed.len() as int)[j] == fin[j]);
                }
                assert forall|y: u32| start.contains(y) implies fin.contains(y) by {
                    assert(pushed.contains(y));
                }
                assert(fin.subrange(0, start.len() as int) == start) by {
                    assert(fin.subrange(0, pushed.len() as int) == pushed);
                    assert(pushed.subrange(0, start.len() as int) == start) by {
                        assert(before.subrange(0, start.len() as int) == start);
                    }
                }
                assert(start.to_set().subset_of(pushed.to_set()));
                assert forall|j: int| start.len() <= j < fin.len() implies {
                    &&& !start.contains(#[trigger] fin[j])
                    &&& (fin[j] as int) < reg.n()
                    &&& reaches_avoiding(reg, id, fin[j], start.to_set())
                } by {
                    if j < before.len() {
                        assert(fin.subrange(0, pushed.len() as int)[j] == fin[j]);
                        assert(pushed[j] == before[j]);
                        assert(fin[j] == before[j]);
                    } else if j == before.len() {
                        assert(fin[j] == s);
                        lemma_edge_reaches(reg, id, s, start.to_set());
                    } else {
                        lemma_extend_reaches(reg, id, s, fin[j], pushed.to_set(), start.to_set());
                        assert(!pushed.contains(fin[j]));
                    }
                }
                assert forall|i: int, j: int| start.len() <= i < j < fin.len() implies fin[i]
                    != fin[j] by {
                    if j >= pushed.len() {
                        if i < pushed.len() {
                            assert(pushed[i] == fin[i]);
                            assert(pushed.contains(fin[i]));
                        }
                    } else {
                        assert(fin[i] == pushed[i] && fin[j] == pushed[j]);
                        if j == before.len() {
                            assert(before.contains(before[i]));
                        } else {
                            assert(before[i] == pushed[i] && before[j] == pushed[j]);
                        }
                    }
                }
                assert forall|j: int| 0 <= j < k + 1 implies fin.contains(#[trigger] sups@[j]) by {
                    if j < k {
                        assert(before.contains(sups@[j]));
                        assert(pushed.contains(sups@[j])) by {
                            let i = choose|i: int| 0 <= i < before.len() && before[i] == sups@[j];
                            assert(pushed[i] == sups@[j]);
                        }
                    } else {
                        assert(pushed[before.len() as int] == s);
                    }
                }
                assert forall|x: u32, t: u32|
                    fin.contains(x) && !start.contains(x) && #[trigger] edge(reg, x, t) implies fin.contains(
                        t,
                    ) by {
                    if x == s {
                    } else if pushed.contains(x) {
                        let i = choose|i: int| 0 <= i < pushed.len() && pushed[i] == x;
                        assert(before[i] == x);
                        assert(before.contains(x));
                        assert(before.contains(t));
                        let m = choose|m: int| 0 <= m < before.len() && before[m] == t;
                        assert(pushed[m] == t);
                    }
                }
            }
        } else {
            assert(out@.contains(sups@[k as int]));
        }
        k += 1;
    }
    proof {
        assert forall|s: u32| #[trigger] edge(reg, id, s) implies out@.contains(s) by {
            let j = choose|j: int| 0 <= j < sups@.len() && sups@[j] == s;
            assert(out@.contains(sups@[j]));
        }
        assert forall|t: u32| reaches_avoiding(reg, id, t, start.to_set()) implies #[trigger] out@.contains(
            t,
        ) by {
            lemma_closed_reach(reg, id, t, out@, start.to_set());
        }
    }
}

/// Whether `sup` is `sub` or one of its ancestors (EMF `isSuperTypeOf`).
pub fn is_super_type_of(reg: &ClassRegistry, sup: u32, sub: u32) -> (r: bool)
    requires
        reg.wf(),
        (sub as int) < reg.n(),
    ensures
        r == (sup == sub || ancestors(reg, sub).contains(sup)),
{
    if sup == sub {
        return true;
    }
    let mut anc: Vec<u32> = Vec::new();
    all_super_ids(reg, sub, &mut anc);
    assert(Seq::<u32>::empty().to_set() =~= Set::<u32>::empty());
    let r = holds(&anc, sup);
    proof {
        if r {
            let j = choose|j: int| 0 <= j < anc@.len() && anc@[j] == sup;
            assert(reaches_avoiding(reg, sub, anc@[j], Set::empty()));
        }
    }
    r
}

/// Class `i` lies on an inheritance cycle.
pub open spec fn cyclic(reg: &ClassRegistry, i: u32) -> bool {
    ancestors(reg, i).contains(i)
}

/// Number of classes below `k` that lie on an inheritance cycle.
pub open spec fn count_cyclic(reg: &ClassRegistry, k: int) -> nat
    decreases k,
{
    if k <= 0 {
        0
    } else {
        count_cyclic(reg, k - 1) + if cyclic(reg, (k - 1) as u32) {
            1nat
        } else {
            0nat
        }
    }
}

/// Number of classes that are their own ancestor (0 for an acyclic
/// inheritance graph).
pub fn count_cycles(reg: &ClassRegistry) -> (r: usize)
    requires
        reg.wf(),
    ensures
        r == count_cyclic(reg, reg.n()),
{
    let n = reg.classes.len();
    let mut count: usize = 0;
    let mut i: usize = 0;
    while i < n
        invariant
            reg.wf(),
            n == reg.n(),
            i <= n,
            count <= i,
            count == count_cyclic(reg, i as int),
        decreases n - i,
    {
        let id = i as u32;
        let mut v: Vec<u32> = Vec::new();
        all_super_ids(reg, id, &mut v);
        assert(Seq::<u32>::empty().to_set() =~= Set::<u32>::empty());
        let c = holds(&v, id);
        proof {
            if c {
                let j = choose|j: int| 0 <= j < v@.len() && v@[j] == id;
                assert(reaches_avoiding(reg, id, v@[j], Set::empty()));
            }
            assert(((i + 1 - 1) as u32) == id);
        }
        if c {
            count += 1;
        }
        i += 1;
    }
    count
}

/// Position of the first of `names` equal to `name`, from `i` on.
pub open spec fn first_name(names: Seq<Seq<char>>, name: Seq<char>, i: int) -> Option<int>
    decreases names.len() - i,
{
    if i < 0 || i >= names.len() {
        None
    } else if names[i] == name {
        Some(i)
    } else {
        first_name(names, name, i + 1)
    }
}

/// The feature names of the registry.
pub open spec fn feature_names_of(reg: &ClassRegistry) -> Seq<Seq<char>> {
    reg.feature_names@.map_values(|n: String| n@)
}

/// The class names of the registry.
pub open spec fn class_names_of(reg: &ClassRegistry) -> Seq<Seq<char>> {
    reg.classes@.map_values(|c: crate::autosar448_model::registry::EClassData| c.name@)
}

/// Position of `name` among `names` (computed).
fn position_of(get: &Vec<String>, name: &str) -> (r: Option<usize>)
    ensures
        match first_name(get@.map_values(|n: String| n@), name@, 0) {
            Some(i) => r == Some(i as usize),
            None => r is None,
        },
{
    let ghost names = get@.map_values(|n: String| n@);
    let key = chars_of(name);
    let mut i: usize = 0;
    while i < get.len()
        invariant
            i <= get@.len(),
            names == get@.map_values(|n: String| n@),
            key@ == name@,
            first_name(names, name@, 0) == first_name(names, name@, i as int),
        decreases get@.len() - i,
    {
        let c = chars_of(get[i].as_str());
        assert(c@ == names[i as int]);
        if chars_eq(c.as_slice(), key.as_slice()) {
            return Some(i);
        }
        i += 1;
    }
    None
}

/// Feature name to feature id.
pub fn feature_id(reg: &ClassRegistry, name: &str) -> (r: Option<u16>)
    requires
        reg.wf(),
    ensures
        match first_name(feature_names_of(reg), name@, 0) {
            Some(i) => r == Some(i as u16),
            None => r is None,
        },
{
    match position_of(&reg.feature_names, name) {
        Some(i) => {
            proof {
                lemma_first_name_range(feature_names_of(reg), name@, 0);
            }
            Some(i as u16)
        },
        None => None,
    }
}

/// The id of the (first) class named `name`.
pub fn class_id(reg: &ClassRegistry, name: &str) -> (r: Option<u32>)
    requires
        reg.wf(),
    ensures
        match first_name(class_names_of(reg), name@, 0) {
            Some(i) => r == Some(i as u32),
            None => r is None,
        },
{
    let key = chars_of(name);
    let mut i: usize = 0;
    while i < reg.classes.len()
        invariant
            reg.wf(),
            i <= reg.n(),
            key@ == name@,
            first_name(class_names_of(reg), name@, 0) == first_name(class_names_of(reg), name@, i as int),
        decreases reg.n() - i,
    {
        let c = chars_of(reg.classes[i].name.as_str());
        assert(c@ == class_names_of(reg)[i as int]);
        if chars_eq(c.as_slice(), key.as_slice()) {
            return Some(i as u32);
        }
        i += 1;
    }
    None
}

/// What `first_name` finds is a position of `names`.
proof fn lemma_first_name_range(names: Seq<Seq<char>>, name: Seq<char>, i: int)
    ensures
        first_name(names, name, i) matches Some(j) ==> i <= j < names.len(),
    decreases names.len() - i,
{
    if 0 <= i < names.len() && names[i] != name {
        lemma_first_name_range(names, name, i + 1);
    }
}

/// Some entry of `acc` is for feature `f`.
pub open spec fn has_feature(acc: Seq<(u32, u16)>, f: u16) -> bool {
    exists|i: int| 0 <= i < acc.len() && (#[trigger] acc[i]).1 == f
}

/// `acc` with `(c, f)` appended for each feature `f` of `fs`, in order,
/// that `acc` has no entry for yet.
pub open spec fn push_feats(acc: Seq<(u32, u16)>, c: u32, fs: Seq<u16>) -> Seq<(u32, u16)>
    decreases fs.len(),
{
    if fs.len() == 0 {
        acc
    } else {
        let a = push_feats(acc, c, fs.drop_last());
        if has_feature(a, fs.last()) {
            a
        } else {
            a.push((c, fs.last()))
        }
    }
}

/// The features of the classes `cs`, in order, each feature once, with the
/// first class of `cs` that declares it.
pub open spec fn collect_features(reg: &ClassRegistry, cs: Seq<u32>) -> Seq<(u32, u16)>
    decreases cs.len(),
{
    if cs.len() == 0 {
        Seq::empty()
    } else {
        push_feats(collect_features(reg, cs.drop_last()), cs.last(), reg.own_of(cs.last()))
    }
}

/// No two entries of `acc` are for the same feature.
pub open spec fn features_distinct(acc: Seq<(u32, u16)>) -> bool {
    forall|i: int, j: int| 0 <= i < j < acc.len() ==> (#[trigger] acc[i]).1 != (#[trigger] acc[j]).1
}

/// Appending new features keeps each feature once and adds exactly the
/// features of `fs`.
pub proof fn lemma_push_feats(acc: Seq<(u32, u16)>, c: u32, fs: Seq<u16>, f: u16)
    ensures
        features_distinct(acc) ==> features_distinct(push_feats(acc, c, fs)),
        has_feature(push_feats(acc, c, fs), f) == (has_feature(acc, f) || fs.contains(f)),
        push_feats(acc, c, fs).subrange(0, acc.len() as int) == acc,
        push_feats(acc, c, fs).len() >= acc.len(),
        forall|k: int|
            acc.len() <= k < push_feats(acc, c, fs).len() ==> (#[trigger] push_feats(acc, c, fs)[k]).0
                == c,
    decreases fs.len(),
{
    if fs.len() > 0 {
        let fs0 = fs.drop_last();
        let a = push_feats(acc, c, fs0);
        lemma_push_feats(acc, c, fs0, f);
        lemma_push_feats(acc, c, fs0, fs.last());
        if !has_feature(a, fs.last()) {
            let b = a.push((c, fs.last()));
            assert(b[a.len() as int] == (c, fs.last()));
            if features_distinct(acc) {
                assert forall|i: int, j: int| 0 <= i < j < b.len() implies (#[trigger] b[i]).1 != (
                #[trigger] b[j]).1 by {
                    if j == a.len() {
                        assert(b[i] == a[i]);
                    } else {
                        assert(b[i] == a[i] && b[j] == a[j]);
                    }
                }
            }
            if has_feature(b, f) {
                let i = choose|i: int| 0 <= i < b.len() && (#[trigger] b[i]).1 == f;
                if i < a.len() {
                    assert(a[i] == b[i]);
                } else {
                    assert(fs[fs.len() - 1] == f);
                }
            }
            if has_feature(a, f) {
                let i = choose|i: int| 0 <= i < a.len() && (#[trigger] a[i]).1 == f;
                assert(b[i] == a[i]);
            }
            if fs.contains(f) && !has_feature(a, f) {
                let k = choose|k: int| 0 <= k < fs.len() && fs[k] == f;
                if k < fs0.len() {
                    assert(fs0[k] == f);
                }
                assert(b[a.len() as int].1 == f);
            }
            assert(b.subrange(0, acc.len() as int) == a.subrange(0, acc.len() as int));
        } else {
            if fs.contains(f) && !fs0.contains(f) {
                let k = choose|k: int| 0 <= k < fs.len() && fs[k] == f;
                if k < fs0.len() {
                    assert(fs0[k] == f);
                }
            }
            if fs0.contains(f) {
                let k = choose|k: int| 0 <= k < fs0.len() && fs0[k] == f;
                assert(fs[k] == f);
            }
        }
        if fs0.contains(f) {
            let k = choose|k: int| 0 <= k < fs0.len() && fs0[k] == f;
            assert(fs[k] == f);
        }
    }
}

/// The collected features are each listed once, and are exactly the
/// features some class of `cs` declares.
pub proof fn lemma_collect_features(reg: &ClassRegistry, cs: Seq<u32>, f: u16)
    ensures
        features_distinct(collect_features(reg, cs)),
        has_feature(collect_features(reg, cs), f) == exists|k: int|
            0 <= k < cs.len() && reg.own_of(#[trigger] cs[k]).contains(f),
    decreases cs.len(),
{
    if cs.len() > 0 {
        let c0 = cs.drop_last();
        lemma_collect_features(reg, c0, f);
        lemma_push_feats(collect_features(reg, c0), cs.last(), reg.own_of(cs.last()), f);
        if exists|k: int| 0 <= k < cs.len() && reg.own_of(#[trigger] cs[k]).contains(f) {
            let k = choose|k: int| 0 <= k < cs.len() && reg.own_of(#[trigger] cs[k]).contains(f);
            if k < c0.len() {
                assert(c0[k] == cs[k]);
            }
        }
        if exists|k: int| 0 <= k < c0.len() && reg.own_of(#[trigger] c0[k]).contains(f) {
            let k = choose|k: int| 0 <= k < c0.len() && reg.own_of(#[trigger] c0[k]).contains(f);
            assert(cs[k] == c0[k]);
        }
    }
}

/// Append to `out` each feature of class `class_id` it has no entry for.
fn push_new(reg: &ClassRegistry, out: &mut Vec<(u32, u16)>, class_id: u32)
    requires
        (class_id as int) < reg.n(),
    ensures
        final(out)@ == push_feats(old(out)@, class_id, reg.own_of(class_id)),
{
    let own = &reg.classes[class_id as usize].own;
    let ghost start = out@;
    let mut j: usize = 0;
    while j < own.len()
        invariant
            *own == reg.classes@[class_id as int].own,
            j <= own@.len(),
            out@ == push_feats(start, class_id, own@.take(j as int)),
        decreases own@.len() - j,
    {
        let f = own[j];
        assert(own@.take(j + 1).drop_last() == own@.take(j as int));
        assert(own@.take(j + 1).last() == f);
        let mut present = false;
        let mut i: usize = 0;
        while i < out.len()
            invariant
                i <= out@.len(),
                present == exists|k: int| 0 <= k < i && (#[trigger] out@[k]).1 == f,
            decreases out@.len() - i,
        {
            if out[i].1 == f {
                present = true;
            }
            i += 1;
        }
        if !present {
            out.push((class_id, f));
        }
        j += 1;
    }
    assert(own@.take(own@.len() as int) == own@);
}

/// EMF `eAllFeatures()`: the features of `id`'s ancestors, then its own,
/// each feature once, paired with the first class (in ancestor order, then
/// `id`) that declares it. The order among ancestors is that of
/// `all_super_ids`.
pub fn all_features(reg: &ClassRegistry, id: u32) -> (r: Vec<(u32, u16)>)
    requires
        reg.wf(),
        (id as int) < reg.n(),
    ensures
        exists|order: Seq<u32>|
            order.no_duplicates() && order.to_set() == ancestors(reg, id) && r@ == collect_features(
                reg,
                #[trigger] order.push(id),
            ),
{
    let mut order: Vec<u32> = Vec::new();
    all_super_ids(reg, id, &mut order);
    assert(Seq::<u32>::empty().to_set() =~= Set::<u32>::empty());
    let mut out: Vec<(u32, u16)> = Vec::new();
    let mut k: usize = 0;
    while k < order.len()
        invariant
            reg.wf(),
            k <= order@.len(),
            forall|j: int| 0 <= j < order@.len() ==> (#[trigger] order@[j] as int) < reg.n(),
            out@ == collect_features(reg, order@.take(k as int)),
        decreases order@.len() - k,
    {
        assert(order@.take(k + 1).drop_last() == order@.take(k as int));
        assert(order@.take(k + 1).last() == order@[k as int]);
        push_new(reg, &mut out, order[k]);
        k += 1;
    }
    assert(order@.take(order@.len() as int) == order@);
    push_new(reg, &mut out, id);
    proof {
        let o = order@;
        assert(o.push(id).drop_last() == o);
        assert(o.to_set() =~= ancestors(reg, id)) by {
            assert forall|t: u32| o.to_set().contains(t) implies ancestors(reg, id).contains(t) by {
                let j = choose|j: int| 0 <= j < o.len() && o[j] == t;
                assert(reaches_avoiding(reg, id, o[j], Set::empty()));
            }
            assert forall|t: u32| ancestors(reg, id).contains(t) implies o.to_set().contains(t) by {
                assert(reaches_avoiding(reg, id, t, Seq::<u32>::empty().to_set()));
            }
        }
        assert(o.no_duplicates());
    }
    out
}

/// A feature of the registry lies in the scope of class `c`: `c` or one of
/// its ancestors declares it.
pub open spec fn in_scope(reg: &ClassRegistry, c: u32, f: u16) -> bool {
    reg.own_of(c).contains(f) || exists|a: u32| ancestors(reg, c).contains(a) && #[trigger] reg.own_of(
        a,
    ).contains(f)
}

/// The features `all_features` lists are exactly those in the class's
/// scope, each once.
pub proof fn lemma_all_features_scope(reg: &ClassRegistry, id: u32, order: Seq<u32>, f: u16)
    requires
        order.to_set() == ancestors(reg, id),
    ensures
        features_distinct(collect_features(reg, order.push(id))),
        has_feature(collect_features(reg, order.push(id)), f) == in_scope(reg, id, f),
{
    let cs = order.push(id);
    lemma_collect_features(reg, cs, f);
    if in_scope(reg, id, f) {
        if reg.own_of(id).contains(f) {
            assert(cs[order.len() as int] == id);
        } else {
            let a = choose|a: u32| ancestors(reg, id).contains(a) && #[trigger] reg.own_of(a).contains(f);
            assert(order.to_set().contains(a));
            let j = choose|j: int| 0 <= j < order.len() && order[j] == a;
            assert(cs[j] == a);
        }
    }
    if exists|k: int| 0 <= k < cs.len() && reg.own_of(#[trigger] cs[k]).contains(f) {
        let k = choose|k: int| 0 <= k < cs.len() && reg.own_of(#[trigger] cs[k]).contains(f);
        if k < order.len() {
            assert(cs[k] == order[k]);
            assert(order.to_set().contains(order[k]));
        }
    }
}

/// Position of the first slot of `own` for feature `f`, from `i` on.
pub open spec fn slot_of<V>(own: Seq<(u16, V)>, f: u16, i: int) -> Option<int>
    decreases own.len() - i,
{
    if i < 0 || i >= own.len() {
        None
    } else if own[i].0 == f {
        Some(i)
    } else {
        slot_of(own, f, i + 1)
    }
}

/// `own` with the slot for `f` holding `v`: the first existing slot is
/// overwritten, else a slot is appended.
pub open spec fn upsert<V>(own: Seq<(u16, V)>, f: u16, v: V) -> Seq<(u16, V)> {
    match slot_of(own, f, 0) {
        Some(i) => own.update(i, (f, v)),
        None => own.push((f, v)),
    }
}

/// What `slot_of` finds is a slot for the feature.
proof fn lemma_slot_of<V>(own: Seq<(u16, V)>, f: u16, i: int)
    requires
        0 <= i,
    ensures
        slot_of(own, f, i) matches Some(j) ==> i <= j < own.len() && own[j].0 == f,
    decreases own.len() - i,
{
    if 0 <= i < own.len() && own[i].0 != f {
        lemma_slot_of(own, f, i + 1);
    }
}

/// The first slot of `own` for `f` (computed).
fn find_slot<V>(own: &Vec<(u16, V)>, f: u16) -> (r: Option<usize>)
    ensures
        match slot_of(own@, f, 0) {
            Some(i) => r matches Some(j) && j as int == i,
            None => r is None,
        },
{
    let mut i: usize = 0;
    while i < own.len()
        invariant
            i <= own@.len(),
            slot_of(own@, f, 0) == slot_of(own@, f, i as int),
        decreases own@.len() - i,
    {
        if own[i].0 == f {
            return Some(i);
        }
        i += 1;
    }
    None
}

/// Whether some entry of `feats` is for feature `f` (computed).
fn lists_feature(feats: &Vec<(u32, u16)>, f: u16) -> (r: bool)
    ensures
        r == has_feature(feats@, f),
{
    let mut i: usize = 0;
    while i < feats.len()
        invariant
            i <= feats@.len(),
            forall|k: int| 0 <= k < i ==> (#[trigger] feats@[k]).1 != f,
        decreases feats@.len() - i,
    {
        if feats[i].1 == f {
            return true;
        }
        i += 1;
    }
    false
}

/// Whether feature `f` is in the scope of class `c` (computed).
fn scope_holds(reg: &ClassRegistry, c: u32, f: u16) -> (r: bool)
    requires
        reg.wf(),
        (c as int) < reg.n(),
    ensures
        r == in_scope(reg, c, f),
{
    let feats = all_features(reg, c);
    let r = lists_feature(&feats, f);
    proof {
        let order = choose|order: Seq<u32>|
            order.no_duplicates() && order.to_set() == ancestors(reg, c) && feats@
                == collect_features(reg, #[trigger] order.push(c));
        lemma_all_features_scope(reg, c, order, f);
    }
    r
}

/// A reflective object of class `class_id` that stores only its own feature
/// values; features are found through the registry's inheritance metadata.
#[derive(Debug, Clone)]
pub struct RObject<V> {
    /// The object's class.
    pub class_id: u32,
    /// Feature values, by feature id.
    pub own: Vec<(u16, V)>,
}

impl<V> RObject<V> {
    /// New object of the given class, with no values.
    pub fn new(class_id: u32) -> (r: Self)
        ensures
            r.class_id == class_id,
            r.own@ == Seq::<(u16, V)>::empty(),
    {
        RObject { class_id, own: Vec::new() }
    }

    /// Set a feature by name. The feature may be declared on the object's
    /// class or on any ancestor; `None` (and no change) when the name is not
    /// a feature in that scope.
    pub fn set_by_name(&mut self, reg: &ClassRegistry, feature: &str, value: V) -> (r: Option<()>)
        requires
            reg.wf(),
            (old(self).class_id as int) < reg.n(),
        ensures
            final(self).class_id == old(self).class_id,
            match first_name(feature_names_of(reg), feature@, 0) {
                Some(i) => if in_scope(reg, old(self).class_id, i as u16) {
                    r is Some && final(self).own@ == upsert(old(self).own@, i as u16, value)
                } else {
                    r is None && final(self).own@ == old(self).own@
                },
                None => r is None && final(self).own@ == old(self).own@,
            },
    {
        let fid = match feature_id(reg, feature) {
            Some(f) => f,
            None => {
                return None;
            },
        };
        if !scope_holds(reg, self.class_id, fid) {
            return None;
        }
        match find_slot(&self.own, fid) {
            Some(i) => {
                proof {
                    lemma_slot_of(self.own@, fid, 0);
                }
                let ghost prev = self.own@;
                self.own.insert(i, (fid, value));
                let n = self.own.len();
                assert(i + 1 < n);
                self.own.remove(i + 1);
                assert(self.own@ =~= prev.update(i as int, (fid, value)));
            },
            None => {
                self.own.push((fid, value));
            },
        }
        Some(())
    }
}

/// EMF `eGet`: the value `obj` holds for the named feature, when the
/// feature is in the scope of class `class_id` and `obj` has a value for it.
pub fn e_get<V: Clone>(reg: &ClassRegistry, class_id: u32, feature: &str, obj: &RObject<V>) -> (r: Option<V>)
    requires
        reg.wf(),
        (class_id as int) < reg.n(),
    ensures
        match first_name(feature_names_of(reg), feature@, 0) {
            Some(i) => if in_scope(reg, class_id, i as u16) {
                match slot_of(obj.own@, i as u16, 0) {
                    Some(k) => r matches Some(v) && cloned(obj.own@[k].1, v),
                    None => r is None,
                }
            } else {
                r is None
            },
            None => r is None,
        },
{
    let fid = match feature_id(reg, feature) {
        Some(f) => f,
        None => {
            return None;
        },
    };
    if !scope_holds(reg, class_id, fid) {
        return None;
    }
    match find_slot(&obj.own, fid) {
        Some(k) => {
            proof {
                lemma_slot_of(obj.own@, fid, 0);
            }
            let v = obj.own[k].1.clone();
            assert(vstd::pervasive::strictly_cloned(obj.own@[k as int].1, v));
            Some(v)
        },
        None => None,
    }
}

/// Replacing a slot by one for the same feature finds the same slots.
proof fn lemma_slot_update<V>(s: Seq<(u16, V)>, i: int, e: (u16, V), f: u16, j: int)
    requires
        0 <= j,
        0 <= i < s.len(),
        e.0 == s[i].0,
    ensures
        slot_of(s.update(i, e), f, j) == slot_of(s, f, j),
    decreases s.len() - j,
{
    if j < s.len() {
        lemma_slot_update(s, i, e, f, j + 1);
    }
}

/// Appending a slot finds what was found before, else the new slot when it
/// is for the feature.
proof fn lemma_slot_push<V>(s: Seq<(u16, V)>, e: (u16, V), f: u16, j: int)
    requires
        0 <= j <= s.len(),
    ensures
        slot_of(s.push(e), f, j) == match slot_of(s, f, j) {
            Some(k) => Some(k),
            None => if e.0 == f {
                Some(s.len() as int)
            } else {
                None
            },
        },
    decreases s.len() - j,
{
    let t = s.push(e);
    if j < s.len() {
        assert(t[j] == s[j]);
        lemma_slot_push(s, e, f, j + 1);
    } else {
        assert(t[j] == e);
        assert(slot_of(t, f, j + 1) is None);
    }
}

/// Reading a feature after setting it gives the value set; every other
/// feature reads the slot (and value) it read before.
pub proof fn lemma_set_then_get<V>(own: Seq<(u16, V)>, f: u16, v: V, g: u16)
    ensures
        slot_of(upsert(own, f, v), f, 0) matches Some(k) && upsert(own, f, v)[k] == (f, v),
        g != f ==> slot_of(upsert(own, f, v), g, 0) == slot_of(own, g, 0),
        g != f ==> (slot_of(own, g, 0) matches Some(k) ==> upsert(own, f, v)[k] == own[k]),
{
    lemma_slot_of(own, f, 0);
    lemma_slot_of(own, g, 0);
    match slot_of(own, f, 0) {
        Some(i) => {
            lemma_slot_update(own, i, (f, v), f, 0);
            lemma_slot_update(own, i, (f, v), g, 0);
        },
        None => {
            lemma_slot_push(own, (f, v), f, 0);
            lemma_slot_push(own, (f, v), g, 0);
        },
    }
}

} // verus!

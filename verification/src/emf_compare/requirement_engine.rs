//! Ordering constraints between differences, so a merge can apply them in
//! dependency order: adding a contained object requires adding its
//! container first; deleting an object requires deleting the objects it
//! contains first; a reference change to an added object, and the move of
//! an added object, require that addition first.
use vstd::prelude::*;
use crate::emf_compare::comparison::{Comparison, Dependency, Match};
use crate::emf_compare::diff::{Diff, DiffKind, DiffType};
use crate::emf_compare::diff_engine::{lookup, lookup_pair};
use crate::emf_compare::support::{contents, contents_of, single_object, single_object_of, CompareValue, ObjectFacts};

verus! {

/// `(added object, difference index)` for every whole-object addition, in
/// order.
pub open spec fn add_pairs<D>(ds: Seq<Diff<CompareValue<D>>>) -> Seq<(usize, usize)>
    decreases ds.len(),
{
    if ds.len() == 0 {
        Seq::empty()
    } else {
        let p = add_pairs(ds.drop_last());
        let d = ds.last()@;
        if d.type_ is ElementChange && d.kind is Add && d.right is Some {
            p.push((d.right->0, (ds.len() - 1) as usize))
        } else {
            p
        }
    }
}

/// `(deleted object, difference index)` for every whole-object deletion, in
/// order.
pub open spec fn delete_pairs<D>(ds: Seq<Diff<CompareValue<D>>>) -> Seq<(usize, usize)>
    decreases ds.len(),
{
    if ds.len() == 0 {
        Seq::empty()
    } else {
        let p = delete_pairs(ds.drop_last());
        let d = ds.last()@;
        if d.type_ is ElementChange && d.kind is Delete && d.left is Some {
            p.push((d.left->0, (ds.len() - 1) as usize))
        } else {
            p
        }
    }
}

/// `(contained object, right container)` for the objects each match's
/// right object contains, in match and content order.
pub open spec fn container_pairs<D, S>(ms: Seq<Match<S>>, g: Seq<ObjectFacts<D>>) -> Seq<(usize, usize)>
    decreases ms.len(),
{
    if ms.len() == 0 {
        Seq::empty()
    } else {
        let p = container_pairs(ms.drop_last(), g);
        match ms.last().right_spec() {
            Some(r) => p + contents_of(g, r).map_values(|c: usize| (c, r)),
            None => p,
        }
    }
}

/// The requirements of the deletion `i` on the deletions of the contained
/// objects `cs`, in order.
pub open spec fn delete_edges(i: usize, cs: Seq<usize>, dels: Seq<(usize, usize)>) -> Seq<(usize, usize)>
    decreases cs.len(),
{
    if cs.len() == 0 {
        Seq::empty()
    } else {
        let p = delete_edges(i, cs.drop_last(), dels);
        match lookup(dels, cs.last()) {
            Some(t) => p.push((i, t)),
            None => p,
        }
    }
}

/// The requirement on the addition of `o`, for difference `i`.
pub open spec fn on_addition(i: usize, adds: Seq<(usize, usize)>, o: Option<usize>) -> Seq<(usize, usize)> {
    match o {
        Some(k) => match lookup(adds, k) {
            Some(t) => seq![(i, t)],
            None => Seq::empty(),
        },
        None => Seq::empty(),
    }
}

/// The requirements of difference `i` (as `(dependent, required)` pairs).
pub open spec fn diff_edges<D, S>(ds: Seq<Diff<CompareValue<D>>>, ms: Seq<Match<S>>, g: Seq<ObjectFacts<D>>, i: int) -> Seq<(usize, usize)> {
    let d = ds[i]@;
    let adds = add_pairs(ds);
    match d.kind {
        DiffKind::Add => match d.right {
            Some(a) => on_addition(i as usize, adds, lookup(container_pairs(ms, g), a)),
            None => Seq::empty(),
        },
        DiffKind::Delete => match d.left {
            Some(rm) => delete_edges(i as usize, contents_of(g, rm), delete_pairs(ds)),
            None => Seq::empty(),
        },
        DiffKind::Change => if d.type_ is ReferenceChange {
            match d.new_value {
                Some(v) => on_addition(i as usize, adds, single_object_of(v)),
                None => Seq::empty(),
            }
        } else {
            Seq::empty()
        },
        DiffKind::Move => on_addition(i as usize, adds, d.right),
    }
}

/// The requirements of the first `n` differences, in order.
pub open spec fn edges_upto<D, S>(ds: Seq<Diff<CompareValue<D>>>, ms: Seq<Match<S>>, g: Seq<ObjectFacts<D>>, n: nat) -> Seq<(usize, usize)>
    decreases n,
{
    if n == 0 {
        Seq::empty()
    } else {
        edges_upto(ds, ms, g, (n - 1) as nat) + diff_edges(ds, ms, g, n - 1)
    }
}

/// The requirements kept: each once, none of a difference on itself.
pub open spec fn kept_edges(es: Seq<(usize, usize)>) -> Seq<(usize, usize)>
    decreases es.len(),
{
    if es.len() == 0 {
        Seq::empty()
    } else {
        let p = kept_edges(es.drop_last());
        let e = es.last();
        if e.0 == e.1 || p.contains(e) {
            p
        } else {
            p.push(e)
        }
    }
}

/// The dependencies kept hold no difference depending on itself and no
/// pair twice.
pub proof fn lemma_kept_edges(es: Seq<(usize, usize)>)
    ensures
        kept_edges(es).no_duplicates(),
        forall|k: int| 0 <= k < kept_edges(es).len() ==> (#[trigger] kept_edges(es)[k]).0 != kept_edges(es)[k].1,
    decreases es.len(),
{
    if es.len() > 0 {
        lemma_kept_edges(es.drop_last());
        let p = kept_edges(es.drop_last());
        let e = es.last();
        if !(e.0 == e.1 || p.contains(e)) {
            assert forall|a: int, b: int| 0 <= a < p.push(e).len() && 0 <= b < p.push(e).len() && a != b implies p.push(
                e,
            )[a] != p.push(e)[b] by {
                if a < p.len() && b < p.len() {
                } else if a < p.len() {
                    assert(p[a] != e);
                } else if b < p.len() {
                    assert(p[b] != e);
                }
            }
        }
    }
}

/// The `(source, target)` pairs of dependencies.
pub open spec fn dependency_pairs(deps: Seq<Dependency>) -> Seq<(usize, usize)> {
    deps.map_values(|d: Dependency| (d.source_spec(), d.target_spec()))
}

/// Whether `e` is among `v` (computed).
fn contains_pair(v: &Vec<(usize, usize)>, e: (usize, usize)) -> (r: bool)
    ensures
        r == v@.contains(e),
{
    let mut i: usize = 0;
    while i < v.len()
        invariant
            i <= v@.len(),
            forall|j: int| 0 <= j < i ==> v@[j] != e,
        decreases v@.len() - i,
    {
        if v[i].0 == e.0 && v[i].1 == e.1 {
            assert(v@[i as int] == e);
            return true;
        }
        i += 1;
    }
    false
}

/// The whole-object additions and deletions, by object (computed).
fn change_pair_lists<D>(ds: &[Diff<CompareValue<D>>]) -> (r: (Vec<(usize, usize)>, Vec<(usize, usize)>))
    ensures
        r.0@ == add_pairs(ds@),
        r.1@ == delete_pairs(ds@),
{
    let mut adds: Vec<(usize, usize)> = Vec::new();
    let mut dels: Vec<(usize, usize)> = Vec::new();
    let mut i: usize = 0;
    while i < ds.len()
        invariant
            i <= ds@.len(),
            adds@ == add_pairs(ds@.subrange(0, i as int)),
            dels@ == delete_pairs(ds@.subrange(0, i as int)),
        decreases ds@.len() - i,
    {
        let ghost s = ds@.subrange(0, i + 1);
        assert(s.drop_last() =~= ds@.subrange(0, i as int));
        let d = &ds[i];
        if matches!(d.type_(), DiffType::ElementChange) {
            match d.kind() {
                DiffKind::Add => {
                    if let Some(r) = d.right() {
                        adds.push((r, i));
                    }
                },
                DiffKind::Delete => {
                    if let Some(l) = d.left() {
                        dels.push((l, i));
                    }
                },
                _ => {},
            }
        }
        i += 1;
    }
    assert(ds@.subrange(0, ds@.len() as int) =~= ds@);
    (adds, dels)
}

/// The containers of the objects the matches' right objects contain
/// (computed).
fn container_pair_list<D, S>(ms: &[Match<S>], graph: &Vec<ObjectFacts<D>>) -> (r: Vec<(usize, usize)>)
    ensures
        r@ == container_pairs(ms@, graph@),
{
    let mut out: Vec<(usize, usize)> = Vec::new();
    let mut i: usize = 0;
    while i < ms.len()
        invariant
            i <= ms@.len(),
            out@ == container_pairs(ms@.subrange(0, i as int), graph@),
        decreases ms@.len() - i,
    {
        let ghost s = ms@.subrange(0, i + 1);
        assert(s.drop_last() =~= ms@.subrange(0, i as int));
        if let Some(r) = ms[i].right() {
            let cs = contents(graph, r);
            let ghost before = out@;
            let mut k: usize = 0;
            while k < cs.len()
                invariant
                    k <= cs@.len(),
                    out@ == before + cs@.subrange(0, k as int).map_values(|c: usize| (c, r)),
                decreases cs@.len() - k,
            {
                out.push((cs[k], r));
                assert(cs@.subrange(0, k + 1).map_values(|c: usize| (c, r)) =~= cs@.subrange(0, k as int).map_values(
                    |c: usize| (c, r),
                ).push((cs[k as int], r)));
                k += 1;
            }
            assert(cs@.subrange(0, cs@.len() as int) =~= cs@);
        }
        i += 1;
    }
    assert(ms@.subrange(0, ms@.len() as int) =~= ms@);
    out
}

/// The requirement on the addition of `o` (computed).
fn addition_edge(i: usize, adds: &Vec<(usize, usize)>, o: Option<usize>, out: &mut Vec<(usize, usize)>)
    ensures
        final(out)@ == old(out)@ + on_addition(i, adds@, o),
{
    if let Some(k) = o {
        if let Some(t) = lookup_pair(adds, k) {
            out.push((i, t));
            assert(old(out)@.push((i, t)) =~= old(out)@ + seq![(i, t)]);
            return;
        }
    }
    assert(old(out)@ + Seq::<(usize, usize)>::empty() =~= old(out)@);
}

/// Compute the dependencies between the comparison's differences, replacing
/// any it had: for each difference in order, its requirements (an addition
/// on its container's addition, a deletion on the deletions of the objects
/// it contains, a reference change or a move on the addition of its
/// object), each pair kept once and none of a difference on itself.
/// `graph` gives the objects each compared object contains.
pub fn compute_requirements<D, S>(comp: &mut Comparison<CompareValue<D>, S>, graph: &Vec<ObjectFacts<D>>)
    ensures
        dependency_pairs(final(comp).dependencies_spec()) == kept_edges(
            edges_upto(
                old(comp).differences_spec(),
                old(comp).matches_spec(),
                graph@,
                old(comp).differences_spec().len(),
            ),
        ),
        final(comp).matches_spec() == old(comp).matches_spec(),
        final(comp).differences_spec() == old(comp).differences_spec(),
        final(comp).conflicts_spec() == old(comp).conflicts_spec(),
        final(comp).equivalences_spec() == old(comp).equivalences_spec(),
        final(comp).three_way_spec() == old(comp).three_way_spec(),
{
    comp.dependencies_mut().clear();
    let ghost ds = comp.differences_spec();
    let ghost ms = comp.matches_spec();
    let ghost g = graph@;
    let (adds, dels) = change_pair_lists(comp.differences());
    let containers = container_pair_list(comp.matches(), graph);
    let n = comp.differences().len();
    let mut edges: Vec<(usize, usize)> = Vec::new();
    let mut i: usize = 0;
    while i < n
        invariant
            n == ds.len(),
            ds == comp.differences_spec(),
            adds@ == add_pairs(ds),
            dels@ == delete_pairs(ds),
            containers@ == container_pairs(ms, g),
            g == graph@,
            i <= n,
            edges@ == edges_upto(ds, ms, g, i as nat),
        decreases n - i,
    {
        let d = &comp.differences()[i];
        let ghost before = edges@;
        match d.kind() {
            DiffKind::Add => {
                if let Some(a) = d.right() {
                    addition_edge(i, &adds, lookup_pair(&containers, a), &mut edges);
                } else {
                    assert(before + Seq::<(usize, usize)>::empty() =~= before);
                }
            },
            DiffKind::Delete => {
                if let Some(rm) = d.left() {
                    let cs = contents(graph, rm);
                    let mut k: usize = 0;
                    while k < cs.len()
                        invariant
                            k <= cs@.len(),
                            edges@ == before + delete_edges(i, cs@.subrange(0, k as int), dels@),
                        decreases cs@.len() - k,
                    {
                        let ghost s = cs@.subrange(0, k + 1);
                        assert(s.drop_last() =~= cs@.subrange(0, k as int));
                        if let Some(t) = lookup_pair(&dels, cs[k]) {
                            edges.push((i, t));
                            assert(before + delete_edges(i, s, dels@) =~= (before + delete_edges(
                                i,
                                cs@.subrange(0, k as int),
                                dels@,
                            )).push((i, t)));
                        }
                        k += 1;
                    }
                    assert(cs@.subrange(0, cs@.len() as int) =~= cs@);
                } else {
                    assert(before + Seq::<(usize, usize)>::empty() =~= before);
                }
            },
            DiffKind::Change => {
                if matches!(d.type_(), DiffType::ReferenceChange) {
                    match d.new_value() {
                        Some(v) => {
                            addition_edge(i, &adds, single_object(v), &mut edges);
                        },
                        None => {
                            assert(before + Seq::<(usize, usize)>::empty() =~= before);
                        },
                    }
                } else {
                    assert(before + Seq::<(usize, usize)>::empty() =~= before);
                }
            },
            DiffKind::Move => {
                addition_edge(i, &adds, d.right(), &mut edges);
            },
        }
        i += 1;
    }
    let mut kept: Vec<(usize, usize)> = Vec::new();
    let mut k: usize = 0;
    assert(dependency_pairs(comp.dependencies_spec()) =~= Seq::<(usize, usize)>::empty());
    while k < edges.len()
        invariant
            k <= edges@.len(),
            kept@ == kept_edges(edges@.subrange(0, k as int)),
            dependency_pairs(comp.dependencies_spec()) == kept@,
            comp.matches_spec() == old(comp).matches_spec(),
            comp.differences_spec() == old(comp).differences_spec(),
            comp.conflicts_spec() == old(comp).conflicts_spec(),
            comp.equivalences_spec() == old(comp).equivalences_spec(),
            comp.three_way_spec() == old(comp).three_way_spec(),
        decreases edges@.len() - k,
    {
        let ghost s = edges@.subrange(0, k + 1);
        assert(s.drop_last() =~= edges@.subrange(0, k as int));
        let e = edges[k];
        if e.0 != e.1 && !contains_pair(&kept, e) {
            kept.push(e);
            let dep = Dependency::new(e.0, e.1);
            let ghost d0 = comp.dependencies_spec();
            comp.dependencies_mut().push(dep);
            assert(dependency_pairs(d0.push(dep)) =~= dependency_pairs(d0).push(e));
        }
        k += 1;
    }
    assert(edges@.subrange(0, edges@.len() as int) =~= edges@);
}

} // verus!

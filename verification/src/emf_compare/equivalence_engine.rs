//! Equivalences across containment boundaries: when a match's object
//! references (through a non-containment reference) an object of another
//! match, the two matches are linked, since adding or deleting the one
//! implies a reference change on the other.
use vstd::prelude::*;
use crate::emf_compare::comparison::{Comparison, Equivalence, Match};
use crate::emf_compare::diff_engine::{lookup, lookup_pair};
use crate::emf_compare::support::{cross_references, cross_references_of, ObjectFacts};

verus! {

/// `(left object, match index)` for every match with a left object, in
/// match order.
pub open spec fn left_pairs<S>(ms: Seq<Match<S>>) -> Seq<(usize, usize)>
    decreases ms.len(),
{
    if ms.len() == 0 {
        Seq::empty()
    } else {
        let p = left_pairs(ms.drop_last());
        match ms.last().left_spec() {
            Some(l) => p.push((l, (ms.len() - 1) as usize)),
            None => p,
        }
    }
}

/// `(right object, match index)` for every match with a right object, in
/// match order.
pub open spec fn right_pairs<S>(ms: Seq<Match<S>>) -> Seq<(usize, usize)>
    decreases ms.len(),
{
    if ms.len() == 0 {
        Seq::empty()
    } else {
        let p = right_pairs(ms.drop_last());
        match ms.last().right_spec() {
            Some(r) => p.push((r, (ms.len() - 1) as usize)),
            None => p,
        }
    }
}

/// The match an object belongs to: the last match with it on the left, else
/// the last with it on the right.
pub open spec fn match_of<S>(ms: Seq<Match<S>>, k: usize) -> Option<usize> {
    match lookup(left_pairs(ms), k) {
        Some(i) => Some(i),
        None => lookup(right_pairs(ms), k),
    }
}

/// The object a match is about: its left object, else its right one.
pub open spec fn source_of<S>(m: Match<S>) -> Option<usize> {
    match m.left_spec() {
        Some(l) => Some(l),
        None => m.right_spec(),
    }
}

/// The links from match `i` for the reference targets `ts`, in order: one
/// for each target that belongs to another match.
pub open spec fn links_for<S>(ms: Seq<Match<S>>, i: usize, ts: Seq<usize>) -> Seq<(usize, usize)>
    decreases ts.len(),
{
    if ts.len() == 0 {
        Seq::empty()
    } else {
        let p = links_for(ms, i, ts.drop_last());
        match match_of(ms, ts.last()) {
            Some(tm) => if tm != i {
                p.push((i, tm))
            } else {
                p
            },
            None => p,
        }
    }
}

/// The links from the first `n` matches, in order.
pub open spec fn links_upto<D, S>(ms: Seq<Match<S>>, g: Seq<ObjectFacts<D>>, n: nat) -> Seq<(usize, usize)>
    decreases n,
{
    if n == 0 {
        Seq::empty()
    } else {
        let prev = links_upto(ms, g, (n - 1) as nat);
        match source_of(ms[n - 1]) {
            Some(src) => prev + links_for(ms, (n - 1) as usize, cross_references_of(g, src)),
            None => prev,
        }
    }
}

/// The member matches of each equivalence.
pub open spec fn members(es: Seq<Equivalence>) -> Seq<Seq<usize>> {
    es.map_values(|e: Equivalence| e.matches_spec())
}

/// The members of the equivalences made for the links `ls`.
pub open spec fn link_members(ls: Seq<(usize, usize)>) -> Seq<Seq<usize>> {
    ls.map_values(|p: (usize, usize)| seq![p.0, p.1])
}

/// The pairs `(left object, match index)` of the matches (computed).
fn left_pair_list<S>(ms: &[Match<S>]) -> (r: Vec<(usize, usize)>)
    ensures
        r@ == left_pairs(ms@),
{
    let mut out: Vec<(usize, usize)> = Vec::new();
    let mut i: usize = 0;
    while i < ms.len()
        invariant
            i <= ms@.len(),
            out@ == left_pairs(ms@.subrange(0, i as int)),
        decreases ms@.len() - i,
    {
        let ghost s = ms@.subrange(0, i + 1);
        assert(s.drop_last() =~= ms@.subrange(0, i as int));
        if let Some(l) = ms[i].left() {
            out.push((l, i));
        }
        i += 1;
    }
    assert(ms@.subrange(0, ms@.len() as int) =~= ms@);
    out
}

/// The pairs `(right object, match index)` of the matches (computed).
fn right_pair_list<S>(ms: &[Match<S>]) -> (r: Vec<(usize, usize)>)
    ensures
        r@ == right_pairs(ms@),
{
    let mut out: Vec<(usize, usize)> = Vec::new();
    let mut i: usize = 0;
    while i < ms.len()
        invariant
            i <= ms@.len(),
            out@ == right_pairs(ms@.subrange(0, i as int)),
        decreases ms@.len() - i,
    {
        let ghost s = ms@.subrange(0, i + 1);
        assert(s.drop_last() =~= ms@.subrange(0, i as int));
        if let Some(r) = ms[i].right() {
            out.push((r, i));
        }
        i += 1;
    }
    assert(ms@.subrange(0, ms@.len() as int) =~= ms@);
    out
}

/// Link every match to the other matches its object references: for each
/// match (in order) and each target of its object's non-containment
/// references (in order) that belongs to another match, one new
/// equivalence of the two matches is appended.
pub fn compute_equivalences<V, S, D>(comp: &mut Comparison<V, S>, graph: &Vec<ObjectFacts<D>>)
    ensures
        members(final(comp).equivalences_spec()) == members(old(comp).equivalences_spec()) + link_members(
            links_upto(old(comp).matches_spec(), graph@, old(comp).matches_spec().len()),
        ),
        final(comp).matches_spec() == old(comp).matches_spec(),
        final(comp).differences_spec() == old(comp).differences_spec(),
        final(comp).conflicts_spec() == old(comp).conflicts_spec(),
        final(comp).dependencies_spec() == old(comp).dependencies_spec(),
        final(comp).three_way_spec() == old(comp).three_way_spec(),
{
    let ghost ms = comp.matches_spec();
    let ghost g = graph@;
    let lefts = left_pair_list(comp.matches());
    let rights = right_pair_list(comp.matches());
    let n = comp.matches().len();
    let mut i: usize = 0;
    while i < n
        invariant
            n == ms.len(),
            ms == comp.matches_spec(),
            g == graph@,
            lefts@ == left_pairs(ms),
            rights@ == right_pairs(ms),
            i <= n,
            members(comp.equivalences_spec()) == members(old(comp).equivalences_spec()) + link_members(
                links_upto(ms, g, i as nat),
            ),
            comp.differences_spec() == old(comp).differences_spec(),
            comp.conflicts_spec() == old(comp).conflicts_spec(),
            comp.dependencies_spec() == old(comp).dependencies_spec(),
            comp.three_way_spec() == old(comp).three_way_spec(),
        decreases n - i,
    {
        let m = &comp.matches()[i];
        let src = match m.left() {
            Some(l) => Some(l),
            None => m.right(),
        };
        if let Some(src) = src {
            let targets = cross_references(graph, src);
            let ghost before = members(comp.equivalences_spec());
            let mut k: usize = 0;
            while k < targets.len()
                invariant
                    n == ms.len(),
                    i < n,
                    ms == comp.matches_spec(),
                    lefts@ == left_pairs(ms),
                    rights@ == right_pairs(ms),
                    k <= targets@.len(),
                    members(comp.equivalences_spec()) == before + link_members(
                        links_for(ms, i, targets@.subrange(0, k as int)),
                    ),
                    comp.differences_spec() == old(comp).differences_spec(),
                    comp.conflicts_spec() == old(comp).conflicts_spec(),
                    comp.dependencies_spec() == old(comp).dependencies_spec(),
                    comp.three_way_spec() == old(comp).three_way_spec(),
                decreases targets@.len() - k,
            {
                let ghost ts = targets@.subrange(0, k + 1);
                assert(ts.drop_last() =~= targets@.subrange(0, k as int));
                assert(ts.last() == targets@[k as int]);
                let t = targets[k];
                let tm = match lookup_pair(&lefts, t) {
                    Some(x) => Some(x),
                    None => lookup_pair(&rights, t),
                };
                if let Some(tm) = tm {
                    if tm != i {
                        let mut eq = Equivalence::default();
                        eq.add_match(i);
                        eq.add_match(tm);
                        assert(eq.matches_spec() =~= seq![i, tm]);
                        let ghost es0 = comp.equivalences_spec();
                        comp.equivalences_mut().push(eq);
                        proof {
                            let ls0 = links_for(ms, i, targets@.subrange(0, k as int));
                            assert(links_for(ms, i, ts) == ls0.push((i, tm)));
                            assert(link_members(ls0.push((i, tm))) =~= link_members(ls0).push(seq![i, tm]));
                            assert(members(es0.push(eq)) =~= members(es0).push(seq![i, tm]));
                        }
                    }
                }
                k += 1;
            }
            proof {
                assert(targets@.subrange(0, targets@.len() as int) =~= targets@);
                let ls = links_upto(ms, g, i as nat);
                let more = links_for(ms, i, cross_references_of(g, src));
                assert(link_members(ls + more) =~= link_members(ls) + link_members(more));
            }
        } else {
            assert(links_upto(ms, g, (i + 1) as nat) == links_upto(ms, g, i as nat));
        }
        i += 1;
    }
}

} // verus!

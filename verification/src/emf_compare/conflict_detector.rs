//! Three-way conflicts: for each match with left, right and origin objects
//! and each feature both sides changed relative to the origin, a conflict,
//! pseudo when both sides made the same change and real otherwise. On a
//! many-valued reference a side's change is its additions and removals
//! relative to the origin. Objects are named
//! by their keys; the side-to-origin and left-to-right correspondences are
//! lists of pairs filled in match order, a later pair for the same key
//! replacing an earlier one.
use vstd::prelude::*;
use vstd::std_specs::cmp::PartialEqSpec;
use crate::emf_compare::comparison::{push_unique, Comparison, Conflict, ConflictKind, Match};
use crate::emf_compare::diff::{Diff, DiffType};
use crate::emf_compare::diff_engine::{compared, left_right_pairs, lookup, lookup_pair};
use crate::emf_compare::support::{
    find_facts, features_of, object_list, object_list_of, value_eq_spec, value_equal, value_of, value_ref, CompareValue,
    FeatureFacts, ObjectFacts,
};

verus! {

/// The side object `s` corresponds to the origin object `o`: it is `o`, or
/// its origin counterpart is `o`.
pub open spec fn corresponds(s: usize, o: usize, s2o: Seq<(usize, usize)>) -> bool {
    s == o || lookup(s2o, s) == Some(o)
}

/// Some origin object of `origin` corresponds to `s`.
pub open spec fn in_origin(s: usize, origin: Seq<usize>, s2o: Seq<(usize, usize)>) -> bool {
    exists|j: int| 0 <= j < origin.len() && corresponds(s, #[trigger] origin[j], s2o)
}

/// Some side object of `side` corresponds to `o`.
pub open spec fn in_side(o: usize, side: Seq<usize>, s2o: Seq<(usize, usize)>) -> bool {
    exists|j: int| 0 <= j < side.len() && corresponds(#[trigger] side[j], o, s2o)
}

/// The side objects with no origin counterpart, in order.
pub open spec fn added_of(side: Seq<usize>, origin: Seq<usize>, s2o: Seq<(usize, usize)>) -> Seq<usize> {
    side.filter(|s: usize| !in_origin(s, origin, s2o))
}

/// The origin objects with no side counterpart, in order.
pub open spec fn removed_of(side: Seq<usize>, origin: Seq<usize>, s2o: Seq<(usize, usize)>) -> Seq<usize> {
    origin.filter(|o: usize| !in_side(o, side, s2o))
}

/// Whether some object of `origin` corresponds to `s` (computed).
fn contains_in_origin(s: usize, origin: &Vec<usize>, s2o: &Vec<(usize, usize)>) -> (r: bool)
    ensures
        r == in_origin(s, origin@, s2o@),
{
    let mapped = lookup_pair(s2o, s);
    let mut j: usize = 0;
    while j < origin.len()
        invariant
            j <= origin@.len(),
            mapped == lookup(s2o@, s),
            forall|a: int| 0 <= a < j ==> !corresponds(s, #[trigger] origin@[a], s2o@),
        decreases origin@.len() - j,
    {
        let o = origin[j];
        let hit = match mapped {
            Some(m) => m == o,
            None => false,
        };
        if o == s || hit {
            assert(corresponds(s, origin@[j as int], s2o@));
            return true;
        }
        j += 1;
    }
    false
}

/// Whether some object of `side` corresponds to `o` (computed).
fn contains_in_side(o: usize, side: &Vec<usize>, s2o: &Vec<(usize, usize)>) -> (r: bool)
    ensures
        r == in_side(o, side@, s2o@),
{
    let mut j: usize = 0;
    while j < side.len()
        invariant
            j <= side@.len(),
            forall|a: int| 0 <= a < j ==> !corresponds(#[trigger] side@[a], o, s2o@),
        decreases side@.len() - j,
    {
        let s = side[j];
        let hit = match lookup_pair(s2o, s) {
            Some(m) => m == o,
            None => false,
        };
        if s == o || hit {
            assert(corresponds(side@[j as int], o, s2o@));
            return true;
        }
        j += 1;
    }
    false
}

/// A side's changes to a many-valued reference relative to the origin: the
/// side objects without origin counterpart (added) and the origin objects
/// without side counterpart (removed), each in order. `side_to_origin`
/// pairs side objects with their origin counterparts.
pub fn set_delta(side_list: &Vec<usize>, origin_list: &Vec<usize>, side_to_origin: &Vec<(usize, usize)>) -> (r: (
    Vec<usize>,
    Vec<usize>,
))
    ensures
        r.0@ == added_of(side_list@, origin_list@, side_to_origin@),
        r.1@ == removed_of(side_list@, origin_list@, side_to_origin@),
{
    let ghost side = side_list@;
    let ghost origin = origin_list@;
    let ghost s2o = side_to_origin@;
    let mut added: Vec<usize> = Vec::new();
    let mut i: usize = 0;
    while i < side_list.len()
        invariant
            side == side_list@,
            origin == origin_list@,
            s2o == side_to_origin@,
            i <= side.len(),
            added@ == side.subrange(0, i as int).filter(|s: usize| !in_origin(s, origin, s2o)),
        decreases side.len() - i,
    {
        let ghost pre = side.subrange(0, i + 1);
        assert(pre.drop_last() =~= side.subrange(0, i as int));
        reveal(Seq::filter);
        if !contains_in_origin(side_list[i], origin_list, side_to_origin) {
            added.push(side_list[i]);
        }
        i += 1;
    }
    assert(side.subrange(0, side.len() as int) =~= side);
    let mut removed: Vec<usize> = Vec::new();
    let mut k: usize = 0;
    while k < origin_list.len()
        invariant
            side == side_list@,
            origin == origin_list@,
            s2o == side_to_origin@,
            k <= origin.len(),
            removed@ == origin.subrange(0, k as int).filter(|o: usize| !in_side(o, side, s2o)),
        decreases origin.len() - k,
    {
        let ghost pre = origin.subrange(0, k + 1);
        assert(pre.drop_last() =~= origin.subrange(0, k as int));
        reveal(Seq::filter);
        if !contains_in_side(origin_list[k], side_list, side_to_origin) {
            removed.push(origin_list[k]);
        }
        k += 1;
    }
    assert(origin.subrange(0, origin.len() as int) =~= origin);
    (added, removed)
}

/// The left object `x` has a right counterpart among `r_added`.
pub open spec fn counterpart_among(ltr: Seq<(usize, usize)>, r_added: Seq<usize>, x: usize) -> bool {
    match lookup(ltr, x) {
        Some(m) => r_added.contains(m),
        None => false,
    }
}

/// Both sides added the same objects: as many on each side, and each left
/// addition's right counterpart among the right additions.
pub open spec fn added_equivalent_spec(l_added: Seq<usize>, r_added: Seq<usize>, ltr: Seq<(usize, usize)>) -> bool {
    &&& l_added.len() == r_added.len()
    &&& forall|i: int| 0 <= i < l_added.len() ==> #[trigger] counterpart_among(ltr, r_added, l_added[i])
}

/// Both sides removed the same objects: as many on each side, and each
/// right removal among the left removals.
pub open spec fn removed_equivalent_spec(l_removed: Seq<usize>, r_removed: Seq<usize>) -> bool {
    &&& l_removed.len() == r_removed.len()
    &&& forall|i: int| 0 <= i < r_removed.len() ==> l_removed.contains(#[trigger] r_removed[i])
}

/// Whether `x` is among `v` (computed).
fn holds(v: &Vec<usize>, x: usize) -> (r: bool)
    ensures
        r == v@.contains(x),
{
    let mut i: usize = 0;
    while i < v.len()
        invariant
            i <= v@.len(),
            forall|j: int| 0 <= j < i ==> v@[j] != x,
        decreases v@.len() - i,
    {
        if v[i] == x {
            return true;
        }
        i += 1;
    }
    false
}

/// Whether both sides added the same objects.
pub fn added_equivalent(l_added: &Vec<usize>, r_added: &Vec<usize>, left_to_right: &Vec<(usize, usize)>) -> (r: bool)
    ensures
        r == added_equivalent_spec(l_added@, r_added@, left_to_right@),
{
    if l_added.len() != r_added.len() {
        return false;
    }
    let mut i: usize = 0;
    while i < l_added.len()
        invariant
            i <= l_added@.len(),
            l_added@.len() == r_added@.len(),
            forall|j: int|
                0 <= j < i ==> #[trigger] counterpart_among(left_to_right@, r_added@, l_added@[j]),
        decreases l_added@.len() - i,
    {
        match lookup_pair(left_to_right, l_added[i]) {
            Some(m) => {
                if !holds(r_added, m) {
                    assert(!counterpart_among(left_to_right@, r_added@, l_added@[i as int]));
                    return false;
                }
            },
            None => {
                assert(!counterpart_among(left_to_right@, r_added@, l_added@[i as int]));
                return false;
            },
        }
        i += 1;
    }
    true
}

/// Whether both sides removed the same objects.
pub fn removed_equivalent(l_removed: &Vec<usize>, r_removed: &Vec<usize>) -> (r: bool)
    ensures
        r == removed_equivalent_spec(l_removed@, r_removed@),
{
    if l_removed.len() != r_removed.len() {
        return false;
    }
    let mut i: usize = 0;
    while i < r_removed.len()
        invariant
            i <= r_removed@.len(),
            l_removed@.len() == r_removed@.len(),
            forall|j: int| 0 <= j < i ==> l_removed@.contains(#[trigger] r_removed@[j]),
        decreases r_removed@.len() - i,
    {
        if !holds(l_removed, r_removed[i]) {
            return false;
        }
        i += 1;
    }
    true
}

/// The conflict on a many-valued reference whose values are `o` (origin),
/// `l` (left) and `r` (right): none unless both sides changed it; pseudo
/// when both added and removed the same objects, real otherwise.
pub open spec fn reference_conflict_spec(
    o: Seq<usize>,
    l: Seq<usize>,
    r: Seq<usize>,
    lto: Seq<(usize, usize)>,
    rto: Seq<(usize, usize)>,
    ltr: Seq<(usize, usize)>,
) -> Option<ConflictKind> {
    let la = added_of(l, o, lto);
    let lr = removed_of(l, o, lto);
    let ra = added_of(r, o, rto);
    let rr = removed_of(r, o, rto);
    let left_changed = la.len() > 0 || lr.len() > 0;
    let right_changed = ra.len() > 0 || rr.len() > 0;
    if !left_changed || !right_changed {
        None
    } else if added_equivalent_spec(la, ra, ltr) && removed_equivalent_spec(lr, rr) {
        Some(ConflictKind::Pseudo)
    } else {
        Some(ConflictKind::Real)
    }
}

/// The conflict on a many-valued reference of a three-way match, given its
/// origin, left and right values and the left-to-origin, right-to-origin and
/// left-to-right correspondences.
pub fn reference_conflict(
    origin: &Vec<usize>,
    left: &Vec<usize>,
    right: &Vec<usize>,
    left_to_origin: &Vec<(usize, usize)>,
    right_to_origin: &Vec<(usize, usize)>,
    left_to_right: &Vec<(usize, usize)>,
) -> (r: Option<ConflictKind>)
    ensures
        r == reference_conflict_spec(origin@, left@, right@, left_to_origin@, right_to_origin@, left_to_right@),
{
    let (l_added, l_removed) = set_delta(left, origin, left_to_origin);
    let (r_added, r_removed) = set_delta(right, origin, right_to_origin);
    let lc = l_added.len() > 0 || l_removed.len() > 0;
    let rc = r_added.len() > 0 || r_removed.len() > 0;
    if !lc || !rc {
        return None;
    }
    if added_equivalent(&l_added, &r_added, left_to_right) && removed_equivalent(&l_removed, &r_removed) {
        Some(ConflictKind::Pseudo)
    } else {
        Some(ConflictKind::Real)
    }
}

/// `(left, origin)` for every match with both, in match order.
pub open spec fn left_origin_pairs<S>(ms: Seq<Match<S>>) -> Seq<(usize, usize)>
    decreases ms.len(),
{
    if ms.len() == 0 {
        Seq::empty()
    } else {
        let p = left_origin_pairs(ms.drop_last());
        let m = ms.last();
        if m.left_spec() is Some && m.origin_spec() is Some {
            p.push((m.left_spec()->0, m.origin_spec()->0))
        } else {
            p
        }
    }
}

/// `(right, origin)` for every match with both, in match order.
pub open spec fn right_origin_pairs<S>(ms: Seq<Match<S>>) -> Seq<(usize, usize)>
    decreases ms.len(),
{
    if ms.len() == 0 {
        Seq::empty()
    } else {
        let p = right_origin_pairs(ms.drop_last());
        let m = ms.last();
        if m.right_spec() is Some && m.origin_spec() is Some {
            p.push((m.right_spec()->0, m.origin_spec()->0))
        } else {
            p
        }
    }
}

/// The conflict on feature `f` of a three-way match (left `l`, right `r`,
/// origin `o`), if both sides changed it.
pub open spec fn feature_conflict<D: PartialEq, S>(ms: Seq<Match<S>>, g: Seq<ObjectFacts<D>>, l: usize, r: usize, o: usize, f: FeatureFacts) -> Option<
    ConflictKind,
> {
    let ov = value_of(g, o, f.name@);
    let lv = value_of(g, l, f.name@);
    let rv = value_of(g, r, f.name@);
    if !compared(f) {
        None
    } else if f.reference && f.many {
        reference_conflict_spec(
            object_list_of(ov),
            object_list_of(lv),
            object_list_of(rv),
            left_origin_pairs(ms),
            right_origin_pairs(ms),
            left_right_pairs(ms),
        )
    } else if value_eq_spec(lv, ov) || value_eq_spec(rv, ov) {
        None
    } else if value_eq_spec(lv, rv) {
        Some(ConflictKind::Pseudo)
    } else {
        Some(ConflictKind::Real)
    }
}

/// The differences among `idxs` (in order, each once) that change the
/// feature `name` as an attribute or reference change.
pub open spec fn conflict_members<V>(ds: Seq<Diff<V>>, idxs: Seq<usize>, name: Seq<char>) -> Seq<usize>
    decreases idxs.len(),
{
    if idxs.len() == 0 {
        Seq::empty()
    } else {
        let prev = conflict_members(ds, idxs.drop_last(), name);
        let x = idxs.last();
        if x < ds.len() && ds[x as int]@.attribute_name == name && (ds[x as int]@.type_ is AttributeChange
            || ds[x as int]@.type_ is ReferenceChange) {
            push_unique(prev, x)
        } else {
            prev
        }
    }
}

/// The conflicts of one three-way match over the features `fs`, in order,
/// as kind and member differences.
pub open spec fn match_conflicts<D: PartialEq, S>(
    ds: Seq<Diff<CompareValue<D>>>,
    ms: Seq<Match<S>>,
    g: Seq<ObjectFacts<D>>,
    i: int,
    l: usize,
    r: usize,
    o: usize,
    fs: Seq<FeatureFacts>,
) -> Seq<(ConflictKind, Seq<usize>)>
    decreases fs.len(),
{
    if fs.len() == 0 {
        Seq::empty()
    } else {
        let prev = match_conflicts(ds, ms, g, i, l, r, o, fs.drop_last());
        let f = fs.last();
        match feature_conflict(ms, g, l, r, o, f) {
            Some(k) => prev.push((k, conflict_members(ds, ms[i].diffs_spec(), f.name@))),
            None => prev,
        }
    }
}

/// The conflicts of the first `n` matches, in order.
pub open spec fn conflicts_upto<D: PartialEq, S>(ds: Seq<Diff<CompareValue<D>>>, ms: Seq<Match<S>>, g: Seq<ObjectFacts<D>>, n: nat) -> Seq<
    (ConflictKind, Seq<usize>),
>
    decreases n,
{
    if n == 0 {
        Seq::empty()
    } else {
        let prev = conflicts_upto(ds, ms, g, (n - 1) as nat);
        let m = ms[n - 1];
        match (m.left_spec(), m.right_spec(), m.origin_spec()) {
            (Some(l), Some(r), Some(o)) => prev + match_conflicts(ds, ms, g, n - 1, l, r, o, features_of(g, l)),
            _ => prev,
        }
    }
}

/// The kind and member differences of each conflict.
pub open spec fn conflict_views(cs: Seq<Conflict>) -> Seq<(ConflictKind, Seq<usize>)> {
    cs.map_values(|c: Conflict| (c.kind_spec(), c.diffs_spec()))
}

/// The side-to-origin and left-to-right pairs of the matches (computed).
fn correspondences<S>(ms: &[Match<S>]) -> (r: (Vec<(usize, usize)>, Vec<(usize, usize)>, Vec<(usize, usize)>))
    ensures
        r.0@ == left_origin_pairs(ms@),
        r.1@ == right_origin_pairs(ms@),
        r.2@ == left_right_pairs(ms@),
{
    let mut lto: Vec<(usize, usize)> = Vec::new();
    let mut rto: Vec<(usize, usize)> = Vec::new();
    let mut ltr: Vec<(usize, usize)> = Vec::new();
    let mut i: usize = 0;
    while i < ms.len()
        invariant
            i <= ms@.len(),
            lto@ == left_origin_pairs(ms@.subrange(0, i as int)),
            rto@ == right_origin_pairs(ms@.subrange(0, i as int)),
            ltr@ == left_right_pairs(ms@.subrange(0, i as int)),
        decreases ms@.len() - i,
    {
        let ghost pre = ms@.subrange(0, i + 1);
        assert(pre.drop_last() =~= ms@.subrange(0, i as int));
        let m = &ms[i];
        if let (Some(l), Some(o)) = (m.left(), m.origin()) {
            lto.push((l, o));
        }
        if let (Some(r), Some(o)) = (m.right(), m.origin()) {
            rto.push((r, o));
        }
        if let (Some(l), Some(r)) = (m.left(), m.right()) {
            ltr.push((l, r));
        }
        i += 1;
    }
    assert(ms@.subrange(0, ms@.len() as int) =~= ms@);
    (lto, rto, ltr)
}

/// The conflict on one feature (computed).
fn feature_conflict_exec<D: PartialEq, S>(
    ms: &[Match<S>],
    graph: &Vec<ObjectFacts<D>>,
    lto: &Vec<(usize, usize)>,
    rto: &Vec<(usize, usize)>,
    ltr: &Vec<(usize, usize)>,
    l: usize,
    r: usize,
    o: usize,
    f: &FeatureFacts,
) -> (res: Option<ConflictKind>)
    requires
        lto@ == left_origin_pairs(ms@),
        rto@ == right_origin_pairs(ms@),
        ltr@ == left_right_pairs(ms@),
    ensures
        D::obeys_eq_spec() ==> res == feature_conflict(ms@, graph@, l, r, o, *f),
{
    if f.derived || f.transient || !f.changeable {
        return None;
    }
    let null: CompareValue<D> = CompareValue::Null;
    let ov = match value_ref(graph, o, f.name.as_str()) {
        Some(v) => v,
        None => &null,
    };
    let lv = match value_ref(graph, l, f.name.as_str()) {
        Some(v) => v,
        None => &null,
    };
    let rv = match value_ref(graph, r, f.name.as_str()) {
        Some(v) => v,
        None => &null,
    };
    if f.reference && f.many {
        reference_conflict(&object_list(ov), &object_list(lv), &object_list(rv), lto, rto, ltr)
    } else if value_equal(lv, ov) || value_equal(rv, ov) {
        None
    } else if value_equal(lv, rv) {
        Some(ConflictKind::Pseudo)
    } else {
        Some(ConflictKind::Real)
    }
}

/// The conflict of kind `kind` on the feature `name`, holding the match's
/// differences that change it (computed).
fn conflict_for<V>(ds: &[Diff<V>], idxs: &[usize], name: &str, kind: ConflictKind) -> (c: Conflict)
    ensures
        c.kind_spec() == kind,
        c.diffs_spec() == conflict_members(ds@, idxs@, name@),
{
    let mut c = Conflict::new(kind);
    let mut k: usize = 0;
    while k < idxs.len()
        invariant
            k <= idxs@.len(),
            c.kind_spec() == kind,
            c.diffs_spec() == conflict_members(ds@, idxs@.subrange(0, k as int), name@),
        decreases idxs@.len() - k,
    {
        let ghost pre = idxs@.subrange(0, k + 1);
        assert(pre.drop_last() =~= idxs@.subrange(0, k as int));
        let di = idxs[k];
        if di < ds.len() {
            let d = &ds[di];
            if crate::text::str_eq(d.attribute_name(), name) && (matches!(d.type_(), DiffType::AttributeChange)
                || matches!(d.type_(), DiffType::ReferenceChange)) {
                c.push_diff(di);
            }
        }
        k += 1;
    }
    assert(idxs@.subrange(0, idxs@.len() as int) =~= idxs@);
    c
}

/// Detect the conflicts of a three-way comparison (nothing for a two-way
/// one): for each match with left, right and origin objects, in order, and
/// each compared feature of its left object, in order, that both sides
/// changed relative to the origin, a conflict is appended (pseudo when both
/// made the same change, real otherwise) holding the match's differences
/// on that feature. `graph` gives the compared objects' features and
/// values. Exact for data types whose `==` keeps its specification.
pub fn detect_conflicts<D: PartialEq + Clone, S>(comp: &mut Comparison<CompareValue<D>, S>, graph: &Vec<ObjectFacts<D>>)
    ensures
        !old(comp).three_way_spec() ==> final(comp).conflicts_spec() == old(comp).conflicts_spec(),
        D::obeys_eq_spec() && old(comp).three_way_spec() ==> conflict_views(final(comp).conflicts_spec()) == conflict_views(
            old(comp).conflicts_spec(),
        ) + conflicts_upto(
            old(comp).differences_spec(),
            old(comp).matches_spec(),
            graph@,
            old(comp).matches_spec().len(),
        ),
        final(comp).matches_spec() == old(comp).matches_spec(),
        final(comp).differences_spec() == old(comp).differences_spec(),
        final(comp).equivalences_spec() == old(comp).equivalences_spec(),
        final(comp).dependencies_spec() == old(comp).dependencies_spec(),
        final(comp).three_way_spec() == old(comp).three_way_spec(),
{
    if !comp.is_three_way() {
        return;
    }
    let ghost c0 = *comp;
    let ghost ms = c0.matches_spec();
    let ghost ds = c0.differences_spec();
    let ghost g = graph@;
    let (lto, rto, ltr) = correspondences(comp.matches());
    let n = comp.matches().len();
    let empty: Vec<FeatureFacts> = Vec::new();
    let mut i: usize = 0;
    while i < n
        invariant
            n == ms.len(),
            ms == comp.matches_spec(),
            ds == comp.differences_spec(),
            g == graph@,
            lto@ == left_origin_pairs(ms),
            rto@ == right_origin_pairs(ms),
            ltr@ == left_right_pairs(ms),
            i <= n,
            empty@ == Seq::<FeatureFacts>::empty(),
            D::obeys_eq_spec() ==> conflict_views(comp.conflicts_spec()) == conflict_views(c0.conflicts_spec())
                + conflicts_upto(ds, ms, g, i as nat),
            comp.equivalences_spec() == c0.equivalences_spec(),
            comp.dependencies_spec() == c0.dependencies_spec(),
            comp.three_way_spec() == c0.three_way_spec(),
        decreases n - i,
    {
        let (left, right, origin) = {
            let m = &comp.matches()[i];
            (m.left(), m.right(), m.origin())
        };
        if let (Some(l), Some(r), Some(o)) = (left, right, origin) {
            let fs = match find_facts(graph, l) {
                Some(f) => &f.features,
                None => &empty,
            };
            assert(fs@ == features_of(g, l));
            let ghost before = conflict_views(comp.conflicts_spec());
            let mut k: usize = 0;
            while k < fs.len()
                invariant
                    n == ms.len(),
                    i < n,
                    ms == comp.matches_spec(),
                    ds == comp.differences_spec(),
                    g == graph@,
                    lto@ == left_origin_pairs(ms),
                    rto@ == right_origin_pairs(ms),
                    ltr@ == left_right_pairs(ms),
                    k <= fs@.len(),
                    D::obeys_eq_spec() ==> conflict_views(comp.conflicts_spec()) == before + match_conflicts(
                        ds,
                        ms,
                        g,
                        i as int,
                        l,
                        r,
                        o,
                        fs@.subrange(0, k as int),
                    ),
                    comp.equivalences_spec() == c0.equivalences_spec(),
                    comp.dependencies_spec() == c0.dependencies_spec(),
                    comp.three_way_spec() == c0.three_way_spec(),
                decreases fs@.len() - k,
            {
                let ghost pre = fs@.subrange(0, k + 1);
                assert(pre.drop_last() =~= fs@.subrange(0, k as int));
                let f = &fs[k];
                match feature_conflict_exec(comp.matches(), graph, &lto, &rto, &ltr, l, r, o, f) {
                    Some(kind) => {
                        let c = conflict_for(comp.differences(), comp.matches()[i].diff_indices(), f.name.as_str(), kind);
                        let ghost cs0 = comp.conflicts_spec();
                        comp.conflicts_mut().push(c);
                        proof {
                            assert(conflict_views(cs0.push(c)) =~= conflict_views(cs0).push((c.kind_spec(), c.diffs_spec())));
                        }
                    },
                    None => {},
                }
                k += 1;
            }
            proof {
                assert(fs@.subrange(0, fs@.len() as int) =~= fs@);
            }
        }
        i += 1;
    }
}

} // verus!

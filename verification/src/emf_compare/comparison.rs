//! The result of one comparison: the matches between the versions'
//! objects (named by their keys), the differences found, and the index-based
//! groupings of differences: a conflict's differences, an equivalence's
//! matches and a dependency between two differences.
use vstd::prelude::*;
use crate::emf_compare::diff::Diff;

verus! {

/// How a match's two sides relate.
#[derive(Debug, Clone, Copy, PartialEq, Eq)]
pub enum MatchKind {
    /// Both sides are present and equal.
    Identical,
    /// Both sides are present and differ.
    Different,
    /// Only the right side is present.
    AbsentLeft,
    /// Only the left side is present.
    AbsentRight,
}

/// Whether a conflict is real or only apparent.
#[derive(Debug, Clone, Copy, PartialEq, Eq)]
pub enum ConflictKind {
    /// Both sides changed the same feature differently.
    Real,
    /// Both sides made the same change.
    Pseudo,
}

/// `s` with `x` appended unless it is already there.
pub open spec fn push_unique(s: Seq<usize>, x: usize) -> Seq<usize> {
    if s.contains(x) {
        s
    } else {
        s.push(x)
    }
}

/// Append `idx` to `v` unless it is already there.
fn push_if_absent(v: &mut Vec<usize>, idx: usize)
    ensures
        final(v)@ == push_unique(old(v)@, idx),
{
    let mut i: usize = 0;
    while i < v.len()
        invariant
            i <= v@.len(),
            v@ == old(v)@,
            forall|j: int| 0 <= j < i ==> v@[j] != idx,
        decreases v@.len() - i,
    {
        if v[i] == idx {
            return;
        }
        i += 1;
    }
    v.push(idx);
}

/// Appending without duplicates keeps a duplicate-free sequence
/// duplicate-free, and the index is present afterwards.
pub proof fn lemma_push_unique(s: Seq<usize>, x: usize)
    requires
        s.no_duplicates(),
    ensures
        push_unique(s, x).no_duplicates(),
        push_unique(s, x).contains(x),
{
    if !s.contains(x) {
        assert(s.push(x)[s.len() as int] == x);
        assert forall|a: int, b: int|
            0 <= a < s.push(x).len() && 0 <= b < s.push(x).len() && a != b implies s.push(x)[a]
            != s.push(x)[b] by {
            if a < s.len() && b < s.len() {
            } else if a < s.len() {
                assert(s[a] != x);
            } else if b < s.len() {
                assert(s[b] != x);
            }
        }
    }
}

/// Two sides changed the same feature relative to the origin.
#[derive(Debug)]
pub struct Conflict {
    kind: ConflictKind,
    diffs: Vec<usize>,
}

impl Default for Conflict {
    fn default() -> (r: Self)
        ensures
            r.kind_spec() == ConflictKind::Real,
            r.diffs_spec() == Seq::<usize>::empty(),
    {
        Conflict { kind: ConflictKind::Real, diffs: Vec::new() }
    }
}

impl Conflict {
    /// Kind.
    pub closed spec fn kind_spec(&self) -> ConflictKind {
        self.kind
    }

    /// Indices of the conflicting differences.
    pub closed spec fn diffs_spec(&self) -> Seq<usize> {
        self.diffs@
    }

    /// New conflict without differences.
    pub fn new(kind: ConflictKind) -> (r: Self)
        ensures
            r.kind_spec() == kind,
            r.diffs_spec() == Seq::<usize>::empty(),
    {
        Conflict { kind, diffs: Vec::new() }
    }

    /// `getKind`.
    pub fn kind(&self) -> (r: ConflictKind)
        ensures
            r == self.kind_spec(),
    {
        self.kind
    }

    /// `setKind`.
    pub fn set_kind(&mut self, k: ConflictKind)
        ensures
            final(self).kind_spec() == k,
            final(self).diffs_spec() == old(self).diffs_spec(),
    {
        self.kind = k;
    }

    /// Indices of the differences in this conflict.
    pub fn diff_indices(&self) -> (r: &[usize])
        ensures
            r@ == self.diffs_spec(),
    {
        self.diffs.as_slice()
    }

    /// Add a difference index (an index already present is not repeated).
    pub fn push_diff(&mut self, idx: usize)
        ensures
            final(self).diffs_spec() == push_unique(old(self).diffs_spec(), idx),
            final(self).kind_spec() == old(self).kind_spec(),
    {
        push_if_absent(&mut self.diffs, idx);
    }
}

/// Matches linked through a non-containment reference, to be merged
/// together.
#[derive(Debug)]
pub struct Equivalence {
    matches: Vec<usize>,
}

impl Default for Equivalence {
    fn default() -> (r: Self)
        ensures
            r.matches_spec() == Seq::<usize>::empty(),
    {
        Equivalence { matches: Vec::new() }
    }
}

impl Equivalence {
    /// Member match indices.
    pub closed spec fn matches_spec(&self) -> Seq<usize> {
        self.matches@
    }

    /// Add a match index (an index already present is not repeated).
    pub fn add_match(&mut self, idx: usize)
        ensures
            final(self).matches_spec() == push_unique(old(self).matches_spec(), idx),
    {
        push_if_absent(&mut self.matches, idx);
    }

    /// The member match indices.
    pub fn matches(&self) -> (r: &[usize])
        ensures
            r@ == self.matches_spec(),
    {
        self.matches.as_slice()
    }
}

/// An ordering constraint between two differences: `source` depends on
/// `target`, so `target` is merged first.
#[derive(Debug, Clone, Copy)]
pub struct Dependency {
    source: usize,
    target: usize,
}

impl Dependency {
    /// The depending difference.
    pub closed spec fn source_spec(&self) -> usize {
        self.source
    }

    /// The difference depended on.
    pub closed spec fn target_spec(&self) -> usize {
        self.target
    }

    /// New dependency of `source` on `target`.
    pub fn new(source: usize, target: usize) -> (r: Self)
        ensures
            r.source_spec() == source,
            r.target_spec() == target,
    {
        Dependency { source, target }
    }

    /// The depending difference index.
    pub fn source(&self) -> (r: usize)
        ensures
            r == self.source_spec(),
    {
        self.source
    }

    /// The depended-on difference index.
    pub fn target(&self) -> (r: usize)
        ensures
            r == self.target_spec(),
    {
        self.target
    }
}

/// The correspondence between a left and a right (and, three-way, an
/// origin) object, with how they relate, the score `S` the matcher gave
/// them, and the indices of its differences.
#[derive(Debug)]
pub struct Match<S> {
    left: Option<usize>,
    right: Option<usize>,
    origin: Option<usize>,
    kind: MatchKind,
    similarity: S,
    diffs: Vec<usize>,
}

impl<S> Match<S> {
    /// The left object.
    pub closed spec fn left_spec(&self) -> Option<usize> {
        self.left
    }

    /// The right object.
    pub closed spec fn right_spec(&self) -> Option<usize> {
        self.right
    }

    /// The origin object (three-way).
    pub closed spec fn origin_spec(&self) -> Option<usize> {
        self.origin
    }

    /// How the sides relate.
    pub closed spec fn kind_spec(&self) -> MatchKind {
        self.kind
    }

    /// The matcher's score.
    pub closed spec fn similarity_spec(&self) -> S {
        self.similarity
    }

    /// Indices of the match's differences.
    pub closed spec fn diffs_spec(&self) -> Seq<usize> {
        self.diffs@
    }

    /// A new match without origin or differences.
    pub fn new(left: Option<usize>, right: Option<usize>, kind: MatchKind, similarity: S) -> (r: Self)
        ensures
            r.left_spec() == left,
            r.right_spec() == right,
            r.origin_spec() is None,
            r.kind_spec() == kind,
            r.similarity_spec() == similarity,
            r.diffs_spec() == Seq::<usize>::empty(),
    {
        Match { left, right, origin: None, kind, similarity, diffs: Vec::new() }
    }

    /// The left object.
    pub fn left(&self) -> (r: Option<usize>)
        ensures
            r == self.left_spec(),
    {
        self.left
    }

    /// Set the left object.
    pub fn set_left(&mut self, o: Option<usize>)
        ensures
            final(self).left_spec() == o,
            final(self).right_spec() == old(self).right_spec(),
            final(self).origin_spec() == old(self).origin_spec(),
            final(self).kind_spec() == old(self).kind_spec(),
            final(self).similarity_spec() == old(self).similarity_spec(),
            final(self).diffs_spec() == old(self).diffs_spec(),
    {
        self.left = o;
    }

    /// The right object.
    pub fn right(&self) -> (r: Option<usize>)
        ensures
            r == self.right_spec(),
    {
        self.right
    }

    /// Set the right object.
    pub fn set_right(&mut self, o: Option<usize>)
        ensures
            final(self).right_spec() == o,
            final(self).left_spec() == old(self).left_spec(),
            final(self).origin_spec() == old(self).origin_spec(),
            final(self).kind_spec() == old(self).kind_spec(),
            final(self).similarity_spec() == old(self).similarity_spec(),
            final(self).diffs_spec() == old(self).diffs_spec(),
    {
        self.right = o;
    }

    /// The origin object (three-way).
    pub fn origin(&self) -> (r: Option<usize>)
        ensures
            r == self.origin_spec(),
    {
        self.origin
    }

    /// Set the origin object.
    pub fn set_origin(&mut self, o: Option<usize>)
        ensures
            final(self).origin_spec() == o,
            final(self).left_spec() == old(self).left_spec(),
            final(self).right_spec() == old(self).right_spec(),
            final(self).kind_spec() == old(self).kind_spec(),
            final(self).similarity_spec() == old(self).similarity_spec(),
            final(self).diffs_spec() == old(self).diffs_spec(),
    {
        self.origin = o;
    }

    /// How the sides relate.
    pub fn kind(&self) -> (r: MatchKind)
        ensures
            r == self.kind_spec(),
    {
        self.kind
    }

    /// Set how the sides relate.
    pub fn set_kind(&mut self, k: MatchKind)
        ensures
            final(self).kind_spec() == k,
            final(self).left_spec() == old(self).left_spec(),
            final(self).right_spec() == old(self).right_spec(),
            final(self).origin_spec() == old(self).origin_spec(),
            final(self).similarity_spec() == old(self).similarity_spec(),
            final(self).diffs_spec() == old(self).diffs_spec(),
    {
        self.kind = k;
    }

    /// The matcher's score.
    pub fn similarity(&self) -> (r: &S)
        ensures
            *r == self.similarity_spec(),
    {
        &self.similarity
    }

    /// Set the matcher's score.
    pub fn set_similarity(&mut self, s: S)
        ensures
            final(self).similarity_spec() == s,
            final(self).left_spec() == old(self).left_spec(),
            final(self).right_spec() == old(self).right_spec(),
            final(self).origin_spec() == old(self).origin_spec(),
            final(self).kind_spec() == old(self).kind_spec(),
            final(self).diffs_spec() == old(self).diffs_spec(),
    {
        self.similarity = s;
    }

    /// Indices of the match's differences.
    pub fn diff_indices(&self) -> (r: &[usize])
        ensures
            r@ == self.diffs_spec(),
    {
        self.diffs.as_slice()
    }

    /// Add a difference index (an index already present is not repeated).
    pub fn push_diff(&mut self, idx: usize)
        ensures
            final(self).diffs_spec() == push_unique(old(self).diffs_spec(), idx),
            final(self).left_spec() == old(self).left_spec(),
            final(self).right_spec() == old(self).right_spec(),
            final(self).origin_spec() == old(self).origin_spec(),
            final(self).kind_spec() == old(self).kind_spec(),
            final(self).similarity_spec() == old(self).similarity_spec(),
    {
        push_if_absent(&mut self.diffs, idx);
    }
}

/// The result of one comparison: matches (with scores `S`), differences
/// (with values `V`), conflicts, equivalences, dependencies, and whether it
/// is three-way.
#[derive(Debug)]
pub struct Comparison<V, S> {
    matches: Vec<Match<S>>,
    differences: Vec<Diff<V>>,
    conflicts: Vec<Conflict>,
    equivalences: Vec<Equivalence>,
    dependencies: Vec<Dependency>,
    three_way: bool,
}

impl<V, S> Comparison<V, S> {
    /// The matches.
    pub closed spec fn matches_spec(&self) -> Seq<Match<S>> {
        self.matches@
    }

    /// The differences.
    pub closed spec fn differences_spec(&self) -> Seq<Diff<V>> {
        self.differences@
    }

    /// The conflicts.
    pub closed spec fn conflicts_spec(&self) -> Seq<Conflict> {
        self.conflicts@
    }

    /// The equivalences.
    pub closed spec fn equivalences_spec(&self) -> Seq<Equivalence> {
        self.equivalences@
    }

    /// The dependencies.
    pub closed spec fn dependencies_spec(&self) -> Seq<Dependency> {
        self.dependencies@
    }

    /// Whether the comparison is three-way.
    pub closed spec fn three_way_spec(&self) -> bool {
        self.three_way
    }

    /// Every collection is empty and the comparison is two-way.
    pub open spec fn is_fresh(&self) -> bool {
        &&& self.matches_spec().len() == 0
        &&& self.differences_spec().len() == 0
        &&& self.conflicts_spec().len() == 0
        &&& self.equivalences_spec().len() == 0
        &&& self.dependencies_spec().len() == 0
        &&& !self.three_way_spec()
    }

    /// A fresh, empty comparison.
    pub fn new() -> (r: Self)
        ensures
            r.is_fresh(),
    {
        Comparison {
            matches: Vec::new(),
            differences: Vec::new(),
            conflicts: Vec::new(),
            equivalences: Vec::new(),
            dependencies: Vec::new(),
            three_way: false,
        }
    }

    /// Append a new match, returning its index.
    pub fn add_match(&mut self, left: Option<usize>, right: Option<usize>, kind: MatchKind, similarity: S) -> (r: usize)
        ensures
            final(self).matches_spec().len() == old(self).matches_spec().len() + 1,
            final(self).matches_spec().subrange(0, r as int) == old(self).matches_spec(),
            r == old(self).matches_spec().len(),
            final(self).matches_spec()[r as int].left_spec() == left,
            final(self).matches_spec()[r as int].right_spec() == right,
            final(self).matches_spec()[r as int].origin_spec() is None,
            final(self).matches_spec()[r as int].kind_spec() == kind,
            final(self).matches_spec()[r as int].similarity_spec() == similarity,
            final(self).matches_spec()[r as int].diffs_spec() == Seq::<usize>::empty(),
            final(self).differences_spec() == old(self).differences_spec(),
            final(self).conflicts_spec() == old(self).conflicts_spec(),
            final(self).equivalences_spec() == old(self).equivalences_spec(),
            final(self).dependencies_spec() == old(self).dependencies_spec(),
            final(self).three_way_spec() == old(self).three_way_spec(),
    {
        self.matches.push(Match::new(left, right, kind, similarity));
        assert(self.matches@.subrange(0, old(self).matches@.len() as int) =~= old(self).matches@);
        self.matches.len() - 1
    }

    /// Append a difference, returning its index.
    pub fn add_diff(&mut self, diff: Diff<V>) -> (r: usize)
        ensures
            final(self).differences_spec() == old(self).differences_spec().push(diff),
            r == old(self).differences_spec().len(),
            final(self).matches_spec() == old(self).matches_spec(),
            final(self).conflicts_spec() == old(self).conflicts_spec(),
            final(self).equivalences_spec() == old(self).equivalences_spec(),
            final(self).dependencies_spec() == old(self).dependencies_spec(),
            final(self).three_way_spec() == old(self).three_way_spec(),
    {
        self.differences.push(diff);
        self.differences.len() - 1
    }

    /// Append a difference that belongs to the match at `match_idx`,
    /// returning its index; the match records it when it exists.
    pub fn add_diff_to_match(&mut self, diff: Diff<V>, match_idx: usize) -> (r: usize)
        ensures
            r == old(self).differences_spec().len(),
            final(self).differences_spec().len() == r + 1,
            final(self).differences_spec().subrange(0, r as int) == old(self).differences_spec(),
            final(self).differences_spec()[r as int]@ == (crate::emf_compare::diff::DiffModel {
                match_index: Some(match_idx),
                ..diff@
            }),
            final(self).matches_spec().len() == old(self).matches_spec().len(),
            forall|i: int|
                0 <= i < old(self).matches_spec().len() && i != match_idx ==> #[trigger] final(self).matches_spec()[i]
                    == old(self).matches_spec()[i],
            match_idx < old(self).matches_spec().len() ==> {
                let (m0, m1) = (old(self).matches_spec()[match_idx as int], final(self).matches_spec()[match_idx as int]);
                &&& m1.diffs_spec() == push_unique(m0.diffs_spec(), r)
                &&& m1.left_spec() == m0.left_spec()
                &&& m1.right_spec() == m0.right_spec()
                &&& m1.origin_spec() == m0.origin_spec()
                &&& m1.kind_spec() == m0.kind_spec()
                &&& m1.similarity_spec() == m0.similarity_spec()
            },
            final(self).conflicts_spec() == old(self).conflicts_spec(),
            final(self).equivalences_spec() == old(self).equivalences_spec(),
            final(self).dependencies_spec() == old(self).dependencies_spec(),
            final(self).three_way_spec() == old(self).three_way_spec(),
    {
        let mut d = diff;
        d.set_match_index(Some(match_idx));
        let idx = self.add_diff(d);
        assert(self.differences@.subrange(0, idx as int) =~= old(self).differences@);
        if match_idx < self.matches.len() {
            let mut m = self.matches.remove(match_idx);
            m.push_diff(idx);
            self.matches.insert(match_idx, m);
        }
        idx
    }

    /// All matches.
    pub fn matches(&self) -> (r: &[Match<S>])
        ensures
            r@ == self.matches_spec(),
    {
        self.matches.as_slice()
    }

    /// The matches, to be changed in place.
    pub fn matches_mut(&mut self) -> (r: &mut Vec<Match<S>>)
        ensures
            r@ == old(self).matches_spec(),
            final(self).matches_spec() == final(r)@,
            final(self).differences_spec() == old(self).differences_spec(),
            final(self).conflicts_spec() == old(self).conflicts_spec(),
            final(self).equivalences_spec() == old(self).equivalences_spec(),
            final(self).dependencies_spec() == old(self).dependencies_spec(),
            final(self).three_way_spec() == old(self).three_way_spec(),
    {
        &mut self.matches
    }

    /// The match at `i`, if there is one.
    pub fn match_at(&self, i: usize) -> (r: Option<&Match<S>>)
        ensures
            i < self.matches_spec().len() ==> r == Some(&self.matches_spec()[i as int]),
            i >= self.matches_spec().len() ==> r is None,
    {
        if i < self.matches.len() {
            Some(&self.matches[i])
        } else {
            None
        }
    }

    /// All differences.
    pub fn differences(&self) -> (r: &[Diff<V>])
        ensures
            r@ == self.differences_spec(),
    {
        self.differences.as_slice()
    }

    /// The differences, to be changed in place.
    pub fn differences_mut(&mut self) -> (r: &mut Vec<Diff<V>>)
        ensures
            r@ == old(self).differences_spec(),
            final(self).differences_spec() == final(r)@,
            final(self).matches_spec() == old(self).matches_spec(),
            final(self).conflicts_spec() == old(self).conflicts_spec(),
            final(self).equivalences_spec() == old(self).equivalences_spec(),
            final(self).dependencies_spec() == old(self).dependencies_spec(),
            final(self).three_way_spec() == old(self).three_way_spec(),
    {
        &mut self.differences
    }

    /// The difference at `i`, if there is one.
    pub fn diff_at(&self, i: usize) -> (r: Option<&Diff<V>>)
        ensures
            i < self.differences_spec().len() ==> r == Some(&self.differences_spec()[i as int]),
            i >= self.differences_spec().len() ==> r is None,
    {
        if i < self.differences.len() {
            Some(&self.differences[i])
        } else {
            None
        }
    }

    /// The conflicts, to be changed in place.
    pub fn conflicts_mut(&mut self) -> (r: &mut Vec<Conflict>)
        ensures
            r@ == old(self).conflicts_spec(),
            final(self).conflicts_spec() == final(r)@,
            final(self).matches_spec() == old(self).matches_spec(),
            final(self).differences_spec() == old(self).differences_spec(),
            final(self).equivalences_spec() == old(self).equivalences_spec(),
            final(self).dependencies_spec() == old(self).dependencies_spec(),
            final(self).three_way_spec() == old(self).three_way_spec(),
    {
        &mut self.conflicts
    }

    /// All conflicts.
    pub fn conflicts(&self) -> (r: &[Conflict])
        ensures
            r@ == self.conflicts_spec(),
    {
        self.conflicts.as_slice()
    }

    /// The equivalences, to be changed in place.
    pub fn equivalences_mut(&mut self) -> (r: &mut Vec<Equivalence>)
        ensures
            r@ == old(self).equivalences_spec(),
            final(self).equivalences_spec() == final(r)@,
            final(self).matches_spec() == old(self).matches_spec(),
            final(self).differences_spec() == old(self).differences_spec(),
            final(self).conflicts_spec() == old(self).conflicts_spec(),
            final(self).dependencies_spec() == old(self).dependencies_spec(),
            final(self).three_way_spec() == old(self).three_way_spec(),
    {
        &mut self.equivalences
    }

    /// All equivalences.
    pub fn equivalences(&self) -> (r: &[Equivalence])
        ensures
            r@ == self.equivalences_spec(),
    {
        self.equivalences.as_slice()
    }

    /// The dependencies, to be changed in place.
    pub fn dependencies_mut(&mut self) -> (r: &mut Vec<Dependency>)
        ensures
            r@ == old(self).dependencies_spec(),
            final(self).dependencies_spec() == final(r)@,
            final(self).matches_spec() == old(self).matches_spec(),
            final(self).differences_spec() == old(self).differences_spec(),
            final(self).conflicts_spec() == old(self).conflicts_spec(),
            final(self).equivalences_spec() == old(self).equivalences_spec(),
            final(self).three_way_spec() == old(self).three_way_spec(),
    {
        &mut self.dependencies
    }

    /// All dependencies.
    pub fn dependencies(&self) -> (r: &[Dependency])
        ensures
            r@ == self.dependencies_spec(),
    {
        self.dependencies.as_slice()
    }

    /// Whether the comparison is three-way.
    pub fn is_three_way(&self) -> (r: bool)
        ensures
            r == self.three_way_spec(),
    {
        self.three_way
    }

    /// Set whether the comparison is three-way.
    pub fn set_three_way(&mut self, b: bool)
        ensures
            final(self).three_way_spec() == b,
            final(self).matches_spec() == old(self).matches_spec(),
            final(self).differences_spec() == old(self).differences_spec(),
            final(self).conflicts_spec() == old(self).conflicts_spec(),
            final(self).equivalences_spec() == old(self).equivalences_spec(),
            final(self).dependencies_spec() == old(self).dependencies_spec(),
    {
        self.three_way = b;
    }

    /// Empty every collection; the three-way flag stays.
    pub fn clear(&mut self)
        ensures
            final(self).matches_spec().len() == 0,
            final(self).differences_spec().len() == 0,
            final(self).conflicts_spec().len() == 0,
            final(self).equivalences_spec().len() == 0,
            final(self).dependencies_spec().len() == 0,
            final(self).three_way_spec() == old(self).three_way_spec(),
    {
        self.matches.clear();
        self.differences.clear();
        self.conflicts.clear();
        self.equivalences.clear();
        self.dependencies.clear();
    }
}

impl<V, S> Default for Comparison<V, S> {
    fn default() -> (r: Self)
        ensures
            r.is_fresh(),
    {
        Comparison::new()
    }
}

} // verus!

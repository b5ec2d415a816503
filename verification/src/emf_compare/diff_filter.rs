//! Filters that veto differences before they reach the user: each filter
//! votes on each difference of a comparison, and a difference rejected by
//! any filter is dropped.
use vstd::prelude::*;
use crate::emf_compare::comparison::Comparison;
use crate::emf_compare::diff::{Diff, DiffKind, DiffType};

verus! {

/// Whether a difference survives filtering.
#[derive(Debug, Clone, Copy, PartialEq, Eq)]
pub enum FilterVote {
    /// Keep the difference.
    Keep,
    /// Reject the difference: it is dropped from the comparison.
    Reject,
}

/// A filter over the differences of a comparison, for users to implement.
///
/// A filter type that sets `obeys_filter_spec` votes as `vote_spec` says;
/// the body of `vote_spec` here is a placeholder for filters that make no
/// such claim.
pub trait DiffFilter<V, S>: Sized {
    /// The filter votes as `vote_spec` says.
    open spec fn obeys_filter_spec() -> bool {
        false
    }

    /// The vote on `diff` within `comparison`.
    open spec fn vote_spec(&self, diff: Diff<V>, comparison: Comparison<V, S>) -> FilterVote {
        FilterVote::Keep
    }

    /// Whether `diff` (within `comparison`) stays.
    fn filter(&self, diff: &Diff<V>, comparison: &Comparison<V, S>) -> (r: FilterVote)
        ensures
            Self::obeys_filter_spec() ==> r == self.vote_spec(*diff, *comparison),
    ;
}

/// The minimal filter: keeps every difference except whole-object changes
/// that carry neither an old nor a new value.
#[derive(Debug, Clone, Copy)]
pub struct MinimalDiffFilter;

/// A whole-object change without old or new value.
pub open spec fn is_empty_element_change<V>(d: Diff<V>) -> bool {
    &&& d@.kind is Change
    &&& d@.type_ is ElementChange
    &&& d@.old_value is None
    &&& d@.new_value is None
}

impl<V, S> DiffFilter<V, S> for MinimalDiffFilter {
    open spec fn obeys_filter_spec() -> bool {
        true
    }

    open spec fn vote_spec(&self, diff: Diff<V>, comparison: Comparison<V, S>) -> FilterVote {
        if is_empty_element_change(diff) {
            FilterVote::Reject
        } else {
            FilterVote::Keep
        }
    }

    fn filter(&self, diff: &Diff<V>, comparison: &Comparison<V, S>) -> (r: FilterVote) {
        if matches!(diff.kind(), DiffKind::Change) && matches!(diff.type_(), DiffType::ElementChange)
            && diff.old_value().is_none() && diff.new_value().is_none() {
            FilterVote::Reject
        } else {
            FilterVote::Keep
        }
    }
}

/// Every filter of `fs` keeps `d` within `c`.
pub open spec fn all_keep<V, S, F: DiffFilter<V, S>>(fs: Seq<F>, d: Diff<V>, c: Comparison<V, S>) -> bool {
    forall|i: int| 0 <= i < fs.len() ==> #[trigger] fs[i].vote_spec(d, c) is Keep
}

/// The differences of `ds` that every filter keeps, in order.
pub open spec fn kept_diffs<V, S, F: DiffFilter<V, S>>(ds: Seq<Diff<V>>, fs: Seq<F>, c: Comparison<V, S>) -> Seq<Diff<V>> {
    ds.filter(|d: Diff<V>| all_keep(fs, d, c))
}

/// Filtering by a predicate every element meets keeps the whole sequence.
proof fn lemma_filter_all<A>(s: Seq<A>, p: spec_fn(A) -> bool)
    requires
        forall|i: int| 0 <= i < s.len() ==> #[trigger] p(s[i]),
    ensures
        s.filter(p) == s,
    decreases s.len(),
{
    reveal(Seq::filter);
    if s.len() > 0 {
        lemma_filter_all(s.drop_last(), p);
        assert(s.drop_last().push(s.last()) =~= s);
    }
}

/// Whether every filter of `fs` keeps `d` (computed).
fn keeps<V, S, F: DiffFilter<V, S>>(fs: &[F], d: &Diff<V>, c: &Comparison<V, S>) -> (r: bool)
    ensures
        F::obeys_filter_spec() ==> r == all_keep(fs@, *d, *c),
{
    let mut i: usize = 0;
    while i < fs.len()
        invariant
            i <= fs@.len(),
            F::obeys_filter_spec() ==> forall|j: int| 0 <= j < i ==> #[trigger] fs@[j].vote_spec(*d, *c) is Keep,
        decreases fs@.len() - i,
    {
        if matches!(fs[i].filter(d, c), FilterVote::Reject) {
            return false;
        }
        i += 1;
    }
    true
}

/// Run `filters` over the comparison's differences, dropping each one some
/// filter rejects (every vote is taken on the comparison as it was before
/// any is dropped); with no filters nothing changes.
pub fn filter_diffs<V, S, F: DiffFilter<V, S>>(comparison: &mut Comparison<V, S>, filters: &[F])
    ensures
        filters@.len() == 0 ==> final(comparison).differences_spec() == old(comparison).differences_spec(),
        F::obeys_filter_spec() ==> final(comparison).differences_spec() == kept_diffs(
            old(comparison).differences_spec(),
            filters@,
            *old(comparison),
        ),
        final(comparison).matches_spec() == old(comparison).matches_spec(),
        final(comparison).conflicts_spec() == old(comparison).conflicts_spec(),
        final(comparison).equivalences_spec() == old(comparison).equivalences_spec(),
        final(comparison).dependencies_spec() == old(comparison).dependencies_spec(),
        final(comparison).three_way_spec() == old(comparison).three_way_spec(),
{
    if filters.len() == 0 {
        proof {
            let c = *comparison;
            let p = |d: Diff<V>| all_keep(filters@, d, c);
            lemma_filter_all(comparison.differences_spec(), p);
        }
        return;
    }
    let ghost ds = comparison.differences_spec();
    let ghost c0 = *comparison;
    let total = comparison.differences().len();
    let mut flags: Vec<bool> = Vec::new();
    let mut i: usize = 0;
    while i < total
        invariant
            total == ds.len(),
            ds == comparison.differences_spec(),
            c0 == *comparison,
            i <= total,
            flags@.len() == i,
            F::obeys_filter_spec() ==> forall|j: int| 0 <= j < i ==> #[trigger] flags@[j] == all_keep(filters@, ds[j], c0),
        decreases total - i,
    {
        let ok = keeps(filters, &comparison.differences()[i], comparison);
        flags.push(ok);
        i += 1;
    }
    let mut rest: Vec<Diff<V>> = Vec::new();
    std::mem::swap(&mut rest, comparison.differences_mut());
    let mut kept: Vec<Diff<V>> = Vec::new();
    let mut k: usize = 0;
    while k < total
        invariant
            total == ds.len(),
            flags@.len() == total,
            k <= total,
            rest@ == ds.subrange(k as int, total as int),
            F::obeys_filter_spec() ==> forall|j: int| 0 <= j < total ==> #[trigger] flags@[j] == all_keep(filters@, ds[j], c0),
            F::obeys_filter_spec() ==> kept@ == ds.subrange(0, k as int).filter(|d: Diff<V>| all_keep(filters@, d, c0)),
        decreases total - k,
    {
        let d = rest.remove(0);
        proof {
            assert(d == ds[k as int]);
            let pre = ds.subrange(0, k + 1);
            assert(pre.drop_last() =~= ds.subrange(0, k as int));
            reveal(Seq::filter);
        }
        if flags[k] {
            kept.push(d);
        }
        k += 1;
        assert(rest@ =~= ds.subrange(k as int, total as int));
    }
    assert(ds.subrange(0, total as int) =~= ds);
    std::mem::swap(&mut kept, comparison.differences_mut());
}

} // verus!

//! Feature maps: typed feature ids, and mixed lists of entries that each
//! belong to a structural feature (by name), filtered by feature.
use vstd::prelude::*;
use crate::text::str_eq;

verus! {

/// A typed key for feature-map entries.
#[derive(Debug, Clone, Copy, PartialEq, Eq)]
pub struct FeatureId(pub u16);

/// One entry: the name of the feature it belongs to, and its value.
#[derive(Debug, Clone)]
pub struct FeatureMapEntry<V> {
    /// The structural feature name the entry belongs to.
    pub feature: String,
    /// The value.
    pub value: V,
}

impl<V> FeatureMapEntry<V> {
    /// An entry of `feature` with `value`.
    pub fn new(feature: &str, value: V) -> (r: Self)
        ensures
            r.feature@ == feature@,
            r.value == value,
    {
        FeatureMapEntry { feature: feature.to_owned(), value }
    }
}

/// The entries of `s` that belong to `feature`, in order.
pub open spec fn entries_of<V>(s: Seq<FeatureMapEntry<V>>, feature: Seq<char>) -> Seq<
    FeatureMapEntry<V>,
>
    decreases s.len(),
{
    if s.len() == 0 {
        Seq::empty()
    } else if s.last().feature@ == feature {
        entries_of(s.drop_last(), feature).push(s.last())
    } else {
        entries_of(s.drop_last(), feature)
    }
}

/// The entries of `s` that do not belong to `feature`, in order.
pub open spec fn entries_not_of<V>(s: Seq<FeatureMapEntry<V>>, feature: Seq<char>) -> Seq<
    FeatureMapEntry<V>,
>
    decreases s.len(),
{
    if s.len() == 0 {
        Seq::empty()
    } else if s.last().feature@ == feature {
        entries_not_of(s.drop_last(), feature)
    } else {
        entries_not_of(s.drop_last(), feature).push(s.last())
    }
}

/// A list of entries over several features, read one feature at a time.
#[derive(Debug, Clone)]
pub struct FeatureMap<V> {
    entries: Vec<FeatureMapEntry<V>>,
}

impl<V> View for FeatureMap<V> {
    type V = Seq<FeatureMapEntry<V>>;

    closed spec fn view(&self) -> Seq<FeatureMapEntry<V>> {
        self.entries@
    }
}

impl<V> FeatureMap<V> {
    /// An empty map.
    pub fn new() -> (r: Self)
        ensures
            r@ == Seq::<FeatureMapEntry<V>>::empty(),
    {
        FeatureMap { entries: Vec::new() }
    }

    /// An empty map (the default of an object's feature map).
    pub fn new_const() -> (r: Self)
        ensures
            r@ == Seq::<FeatureMapEntry<V>>::empty(),
    {
        FeatureMap { entries: Vec::new() }
    }

    /// The number of entries.
    pub fn len(&self) -> (r: usize)
        ensures
            r == self@.len(),
    {
        self.entries.len()
    }

    /// The map has no entry.
    pub fn is_empty(&self) -> (r: bool)
        ensures
            r == (self@.len() == 0),
    {
        self.entries.len() == 0
    }

    /// Appends `entry`.
    pub fn add(&mut self, entry: FeatureMapEntry<V>)
        ensures
            final(self)@ == old(self)@.push(entry),
    {
        self.entries.push(entry);
    }

    /// Removes every entry of `feature`; the others keep their order.
    pub fn remove_by_feature(&mut self, feature: &str)
        ensures
            final(self)@ == entries_not_of(old(self)@, feature@),
    {
        let mut rest: Vec<FeatureMapEntry<V>> = Vec::new();
        std::mem::swap(&mut rest, &mut self.entries);
        let ghost all = rest@;
        let n = rest.len();
        let mut kept: Vec<FeatureMapEntry<V>> = Vec::new();
        let mut i: usize = 0;
        while i < n
            invariant
                n == all.len(),
                all == old(self)@,
                i <= n,
                rest@ == all.skip(i as int),
                kept@ == entries_not_of(all.take(i as int), feature@),
            decreases n - i,
        {
            let e = rest.remove(0);
            proof {
                assert(all.take(i + 1).drop_last() =~= all.take(i as int));
                assert(all.take(i + 1).last() == all[i as int]);
                assert(all.skip(i as int)[0] == all[i as int]);
                assert(rest@ =~= all.skip(i + 1));
            }
            let same = str_eq(e.feature.as_str(), feature);
            if !same {
                kept.push(e);
            }
            i += 1;
        }
        proof {
            assert(all.take(n as int) =~= all);
        }
        self.entries = kept;
    }

    /// Whether some entry belongs to `feature`.
    pub fn has_feature(&self, feature: &str) -> (r: bool)
        ensures
            r == exists|i: int| 0 <= i < self@.len() && #[trigger] self@[i].feature@ == feature@,
    {
        let n = self.entries.len();
        let mut i: usize = 0;
        while i < n
            invariant
                n == self.entries@.len(),
                i <= n,
                forall|k: int| 0 <= k < i ==> #[trigger] self.entries@[k].feature@ != feature@,
            decreases n - i,
        {
            if str_eq(self.entries[i].feature.as_str(), feature) {
                assert(self@[i as int].feature@ == feature@);
                return true;
            }
            i += 1;
        }
        false
    }

    /// All entries.
    pub fn entries(&self) -> (r: &[FeatureMapEntry<V>])
        ensures
            r@ == self@,
    {
        self.entries.as_slice()
    }
}

impl<V: Clone> FeatureMap<V> {
    /// Clones of the entries of `feature`, in order.
    pub fn list(&self, feature: &str) -> (r: Vec<FeatureMapEntry<V>>)
        ensures
            r@.len() == entries_of(self@, feature@).len(),
            forall|i: int|
                0 <= i < r@.len() ==> (#[trigger] r@[i]).feature@ == feature@ && cloned::<V>(
                    entries_of(self@, feature@)[i].value,
                    r@[i].value,
                ),
    {
        let n = self.entries.len();
        let ghost all = self.entries@;
        let mut out: Vec<FeatureMapEntry<V>> = Vec::new();
        let mut i: usize = 0;
        while i < n
            invariant
                n == all.len(),
                all == self@,
                i <= n,
                out@.len() == entries_of(all.take(i as int), feature@).len(),
                forall|k: int|
                    0 <= k < out@.len() ==> (#[trigger] out@[k]).feature@ == feature@ && cloned::<
                        V,
                    >(entries_of(all.take(i as int), feature@)[k].value, out@[k].value),
            decreases n - i,
        {
            proof {
                assert(all.take(i + 1).drop_last() =~= all.take(i as int));
                assert(all.take(i + 1).last() == all[i as int]);
            }
            let e = &self.entries[i];
            if str_eq(e.feature.as_str(), feature) {
                let v = e.value.clone();
                out.push(FeatureMapEntry { feature: e.feature.clone(), value: v });
            }
            i += 1;
        }
        proof {
            assert(all.take(n as int) =~= all);
        }
        out
    }
}

impl<V> Default for FeatureMap<V> {
    fn default() -> (r: Self)
        ensures
            r@ == Seq::<FeatureMapEntry<V>>::empty(),
    {
        FeatureMap::new()
    }
}

/// Removing the entries of a feature leaves none of that feature, and keeps
/// every entry of the others.
pub proof fn lemma_remove_by_feature<V>(s: Seq<FeatureMapEntry<V>>, feature: Seq<char>)
    ensures
        entries_of(entries_not_of(s, feature), feature) == Seq::<FeatureMapEntry<V>>::empty(),
        forall|other: Seq<char>|
            other != feature ==> #[trigger] entries_of(entries_not_of(s, feature), other)
                == entries_of(s, other),
    decreases s.len(),
{
    if s.len() > 0 {
        lemma_remove_by_feature(s.drop_last(), feature);
        let rest = entries_not_of(s.drop_last(), feature);
        if s.last().feature@ != feature {
            assert(rest.push(s.last()).drop_last() =~= rest);
            assert(rest.push(s.last()).last() == s.last());
        }
        assert forall|other: Seq<char>| other != feature implies #[trigger] entries_of(
            entries_not_of(s, feature),
            other,
        ) == entries_of(s, other) by {
            assert(entries_of(rest, other) == entries_of(s.drop_last(), other));
            if s.last().feature@ != feature {
                assert(rest.push(s.last()).drop_last() =~= rest);
                assert(rest.push(s.last()).last() == s.last());
            }
        }
    }
}

} // verus!

//! EMF `EList` abstraction and its implementations: `BasicEList` (a plain
//! ordered list with an optional change hook), `UniqueEList` (an ordered list
//! that refuses duplicates on insertion), `FastCompareUniqueEList`, and
//! `NotifyingList` (a list that reports each change through a notifier).
//!
//! Element equality is the element type's `PartialEq`. Every statement that
//! depends on comparing elements is made for element types whose `==`
//! coincides with equality of values (`obeys_concrete_eq`), which is the case
//! for the integer types, `bool` and `char`.
use vstd::prelude::*;
use vstd::laws_eq::obeys_concrete_eq;
use vstd::std_specs::iter::IteratorSpec;
use crate::emf_common::notification::{Adapter, EventType, Notification, NotificationValue, Notifier};

verus! {

/// A change on a list: add / remove / set / move.
#[derive(Debug, Clone, Copy, PartialEq, Eq)]
pub enum ListChange {
    /// An element was added at `index`.
    Add { index: usize },
    /// The element at `index` was removed.
    Remove { index: usize },
    /// The element at `index` was replaced.
    Replace { index: usize },
    /// An element was moved from `from` to `to`.
    Move { from: usize, to: usize },
}

/// Receiver of the change events of a list (the list's change hook).
pub trait ListChangeHook {
    /// Called after each change of the list that carries the hook.
    fn list_changed(&mut self, change: ListChange);
}

/// `k` is the first position of `v` in `s`.
pub open spec fn is_first_index<T>(s: Seq<T>, v: T, k: int) -> bool {
    &&& 0 <= k < s.len()
    &&& s[k] == v
    &&& forall|j: int| 0 <= j < k ==> s[j] != v
}

/// `s` with later repetitions of an element dropped (first occurrences kept,
/// in order).
pub open spec fn dedup<T>(s: Seq<T>) -> Seq<T>
    decreases s.len(),
{
    if s.len() == 0 {
        Seq::empty()
    } else {
        let d = dedup(s.drop_last());
        if d.contains(s.last()) {
            d
        } else {
            d.push(s.last())
        }
    }
}

/// `dedup` never holds an element twice, and holds exactly the elements of
/// its argument.
pub proof fn lemma_dedup<T>(s: Seq<T>)
    ensures
        dedup(s).no_duplicates(),
        forall|x: T| dedup(s).contains(x) <==> s.contains(x),
    decreases s.len(),
{
    if s.len() > 0 {
        let p = s.drop_last();
        let d = dedup(p);
        lemma_dedup(p);
        assert forall|x: T| s.contains(x) <==> (p.contains(x) || s.last() == x) by {
            if s.contains(x) && s.last() != x {
                let k = choose|k: int| 0 <= k < s.len() && s[k] == x;
                assert(p[k] == x);
            }
            if p.contains(x) {
                let k = choose|k: int| 0 <= k < p.len() && p[k] == x;
                assert(s[k] == x);
            }
            if s.last() == x {
                assert(s[s.len() - 1] == x);
            }
        }
        assert forall|x: T| d.push(s.last()).contains(x) <==> (d.contains(x) || s.last() == x) by {
            let q = d.push(s.last());
            if q.contains(x) && s.last() != x {
                let k = choose|k: int| 0 <= k < q.len() && q[k] == x;
                assert(d[k] == x);
            }
            if d.contains(x) {
                let k = choose|k: int| 0 <= k < d.len() && d[k] == x;
                assert(q[k] == x);
            }
            if s.last() == x {
                assert(q[q.len() - 1] == x);
            }
        }
    }
}

/// Generic ordered list (EMF `EList<T>`).
pub trait EList<T> {
    /// The elements, in order.
    spec fn elements(&self) -> Seq<T>;

    /// Number of elements.
    fn len(&self) -> (r: usize)
        ensures
            r == self.elements().len(),
    ;

    /// Whether empty.
    fn is_empty(&self) -> (r: bool)
        ensures
            r == (self.elements().len() == 0),
    {
        self.len() == 0
    }

    /// Element at index `i`, `None` when out of range.
    fn get(&self, i: usize) -> (r: Option<&T>)
        ensures
            i < self.elements().len() ==> r == Some(&self.elements()[i as int]),
            i >= self.elements().len() ==> r is None,
    ;

    /// Add `value` at the end (a list that refuses duplicates leaves itself
    /// unchanged instead).
    fn add(&mut self, value: T)
        ensures
            final(self).elements() == old(self).elements().push(value) || final(self).elements()
                == old(self).elements(),
    ;

    /// Remove the element at index `i`, returning it; `None` when out of range.
    fn remove(&mut self, i: usize) -> (r: Option<T>)
        ensures
            i < old(self).elements().len() ==> r == Some(old(self).elements()[i as int])
                && final(self).elements() == old(self).elements().remove(i as int),
            i >= old(self).elements().len() ==> r is None && final(self).elements() == old(
                self,
            ).elements(),
    ;

    /// Replace the element at index `i`, returning the old one; `None` (and
    /// no change) when out of range, or when a list that refuses duplicates
    /// already holds `value` elsewhere.
    fn set(&mut self, i: usize, value: T) -> (r: Option<T>)
        ensures
            i < old(self).elements().len() ==> (r == Some(old(self).elements()[i as int])
                && final(self).elements() == old(self).elements().update(i as int, value)) || (
            r is None && final(self).elements() == old(self).elements()),
            i >= old(self).elements().len() ==> r is None && final(self).elements() == old(
                self,
            ).elements(),
    ;

    /// Remove all elements.
    fn clear(&mut self)
        ensures
            final(self).elements() == Seq::<T>::empty(),
    ;

    /// Whether `value` is present.
    fn contains(&self, value: &T) -> (r: bool) where T: PartialEq
        ensures
            obeys_concrete_eq::<T>() ==> r == self.elements().contains(*value),
    ;

    /// Iterate by reference, in order.
    fn iter(&self) -> (r: std::slice::Iter<'_, T>)
        ensures
            IteratorSpec::remaining(&r) == self.elements().as_ref(),
    ;
}

/// The changes a list reports for one change `c`: `c` itself when a hook is
/// attached, nothing otherwise.
pub open spec fn reported_if(hook: bool, c: ListChange) -> Seq<ListChange> {
    if hook {
        seq![c]
    } else {
        Seq::empty()
    }
}

/// A list backed by `Vec<T>` with no uniqueness constraint (EMF `BasicEList`).
pub struct BasicEList<T> {
    data: Vec<T>,
    on_change: Option<Box<dyn ListChangeHook>>,
    reported: Ghost<Seq<ListChange>>,
}

impl<T> View for BasicEList<T> {
    type V = Seq<T>;

    closed spec fn view(&self) -> Seq<T> {
        self.data@
    }
}

impl<T> BasicEList<T> {
    /// The elements the `EList` contracts speak of are the list's view.
    pub proof fn lemma_elements_are_view(&self)
        ensures
            self.elements() == self@,
    {
    }

    /// Whether a change hook is attached.
    pub closed spec fn has_hook(&self) -> bool {
        self.on_change is Some
    }

    /// The changes reported to the hooks so far, in order.
    pub closed spec fn reported(&self) -> Seq<ListChange> {
        self.reported@
    }

    /// New empty list.
    pub fn new() -> (r: Self)
        ensures
            r@ == Seq::<T>::empty(),
            !r.has_hook(),
            r.reported() == Seq::<ListChange>::empty(),
    {
        BasicEList { data: Vec::new(), on_change: None, reported: Ghost(Seq::empty()) }
    }

    /// New list holding `values`, in order.
    pub fn from_vec(values: Vec<T>) -> (r: Self)
        ensures
            r@ == values@,
            !r.has_hook(),
            r.reported() == Seq::<ListChange>::empty(),
    {
        BasicEList { data: values, on_change: None, reported: Ghost(Seq::empty()) }
    }

    /// New list holding the items of a collection, in order.
    pub fn from_iter(iter: Vec<T>) -> (r: Self)
        ensures
            r@ == iter@,
            !r.has_hook(),
            r.reported() == Seq::<ListChange>::empty(),
    {
        Self::from_vec(iter)
    }

    /// Attach (or detach, with `None`) the change hook.
    pub fn set_change_hook(&mut self, hook: Option<Box<dyn ListChangeHook>>)
        ensures
            final(self)@ == old(self)@,
            final(self).has_hook() == hook.is_some(),
            final(self).reported() == old(self).reported(),
    {
        self.on_change = hook;
    }

    /// Raw slice access.
    pub fn as_slice(&self) -> (r: &[T])
        ensures
            r@ == self@,
    {
        self.data.as_slice()
    }

    /// Raw mutable slice access.
    pub fn as_mut_slice(&mut self) -> (r: &mut [T])
        ensures
            r@ == old(self)@,
            final(r)@ == final(self)@,
            final(self).has_hook() == old(self).has_hook(),
            final(self).reported() == old(self).reported(),
    {
        self.data.as_mut_slice()
    }

    /// Report `change` to the hook, if any.
    fn notify(&mut self, change: ListChange)
        ensures
            final(self)@ == old(self)@,
            final(self).has_hook() == old(self).has_hook(),
            final(self).reported() == old(self).reported() + reported_if(old(self).has_hook(), change),
    {
        match &mut self.on_change {
            Some(h) => {
                h.list_changed(change);
                self.reported = Ghost(self.reported@.push(change));
            },
            None => {},
        }
        proof {
            assert(self.reported@ =~= old(self).reported@ + reported_if(old(self).has_hook(), change));
        }
    }

    /// Insert `value` at `index` (which must not exceed the length), reporting
    /// an `Add` change.
    fn insert_at(&mut self, index: usize, value: T)
        requires
            index <= old(self)@.len(),
        ensures
            final(self)@ == old(self)@.insert(index as int, value),
            final(self).has_hook() == old(self).has_hook(),
            final(self).reported() == old(self).reported() + reported_if(
                old(self).has_hook(),
                ListChange::Add { index },
            ),
    {
        self.data.insert(index, value);
        self.notify(ListChange::Add { index });
    }

    /// Replace the element at `index` (which must be in range), reporting a
    /// `Set` change.
    fn replace_at(&mut self, index: usize, value: T) -> (r: T)
        requires
            index < old(self)@.len(),
        ensures
            r == old(self)@[index as int],
            final(self)@ == old(self)@.update(index as int, value),
            final(self).has_hook() == old(self).has_hook(),
            final(self).reported() == old(self).reported() + reported_if(
                old(self).has_hook(),
                ListChange::Replace { index },
            ),
    {
        let n = self.data.len();
        assert(index < n);
        let next = index + 1;
        self.data.insert(index, value);
        let prev = self.data.remove(next);
        proof {
            assert(self.data@ == old(self)@.update(index as int, value));
        }
        self.notify(ListChange::Replace { index });
        prev
    }
}

impl<T> Default for BasicEList<T> {
    fn default() -> (r: Self)
        ensures
            r@ == Seq::<T>::empty(),
            !r.has_hook(),
    {
        Self::new()
    }
}

impl<T> EList<T> for BasicEList<T> {
    closed spec fn elements(&self) -> Seq<T> {
        self.data@
    }

    fn len(&self) -> (r: usize) {
        self.data.len()
    }

    fn get(&self, i: usize) -> (r: Option<&T>) {
        if i < self.data.len() {
            Some(&self.data[i])
        } else {
            None
        }
    }

    fn add(&mut self, value: T)
        ensures
            final(self)@ == old(self)@.push(value),
            final(self).has_hook() == old(self).has_hook(),
            final(self).reported() == old(self).reported() + reported_if(
                old(self).has_hook(),
                ListChange::Add { index: old(self)@.len() as usize },
            ),
    {
        let index = self.data.len();
        self.data.push(value);
        self.notify(ListChange::Add { index });
    }

    fn remove(&mut self, i: usize) -> (r: Option<T>)
        ensures
            i < old(self)@.len() ==> r == Some(old(self)@[i as int]) && final(self)@ == old(
                self,
            )@.remove(i as int),
            i >= old(self)@.len() ==> r is None && final(self)@ == old(self)@,
            final(self).has_hook() == old(self).has_hook(),
            final(self).reported() == old(self).reported() + (if i < old(self)@.len() {
                reported_if(old(self).has_hook(), ListChange::Remove { index: i })
            } else {
                Seq::empty()
            }),
    {
        if i >= self.data.len() {
            proof {
                assert(self.reported@ =~= old(self).reported@ + Seq::<ListChange>::empty());
            }
            return None;
        }
        let v = self.data.remove(i);
        self.notify(ListChange::Remove { index: i });
        Some(v)
    }

    fn set(&mut self, i: usize, value: T) -> (r: Option<T>)
        ensures
            i < old(self)@.len() ==> r == Some(old(self)@[i as int]) && final(self)@ == old(
                self,
            )@.update(i as int, value),
            i >= old(self)@.len() ==> r is None && final(self)@ == old(self)@,
            final(self).has_hook() == old(self).has_hook(),
            final(self).reported() == old(self).reported() + (if i < old(self)@.len() {
                reported_if(old(self).has_hook(), ListChange::Replace { index: i })
            } else {
                Seq::empty()
            }),
    {
        if i >= self.data.len() {
            proof {
                assert(self.reported@ =~= old(self).reported@ + Seq::<ListChange>::empty());
            }
            return None;
        }
        Some(self.replace_at(i, value))
    }

    fn clear(&mut self)
        ensures
            final(self)@ == Seq::<T>::empty(),
            final(self).has_hook() == old(self).has_hook(),
            final(self).reported() == old(self).reported(),
    {
        if self.data.len() != 0 {
            self.data.clear();
        }
    }

    fn contains(&self, value: &T) -> (r: bool) where T: PartialEq {
        match self.index_of(value) {
            Some(_) => true,
            None => false,
        }
    }

    fn iter(&self) -> (r: std::slice::Iter<'_, T>) {
        self.data.as_slice().iter()
    }
}

impl<T: PartialEq> BasicEList<T> {
    /// Add `value` only if not already present; `true` when it was added.
    pub fn add_unique(&mut self, value: T) -> (r: bool)
        ensures
            final(self)@ == (if r {
                old(self)@.push(value)
            } else {
                old(self)@
            }),
            obeys_concrete_eq::<T>() ==> r == !old(self)@.contains(value),
            final(self).has_hook() == old(self).has_hook(),
            final(self).reported() == old(self).reported() + (if r {
                reported_if(old(self).has_hook(), ListChange::Add { index: old(self)@.len() as usize })
            } else {
                Seq::empty()
            }),
    {
        if self.contains(&value) {
            proof {
                assert(self.reported@ =~= old(self).reported@ + Seq::<ListChange>::empty());
            }
            false
        } else {
            self.add(value);
            true
        }
    }

    /// Position of the first occurrence of `value`, else `None`.
    pub fn index_of(&self, value: &T) -> (r: Option<usize>)
        ensures
            match r {
                Some(k) => k < self@.len() && (obeys_concrete_eq::<T>() ==> is_first_index(
                    self@,
                    *value,
                    k as int,
                )),
                None => obeys_concrete_eq::<T>() ==> !self@.contains(*value),
            },
    {
        let mut i: usize = 0;
        while i < self.data.len()
            invariant
                i <= self.data@.len(),
                obeys_concrete_eq::<T>() ==> forall|j: int| 0 <= j < i ==> self.data@[j] != *value,
            decreases self.data@.len() - i,
        {
            let same = self.data[i] == *value;
            proof {
                if obeys_concrete_eq::<T>() {
                    reveal(obeys_concrete_eq);
                }
            }
            if same {
                return Some(i);
            }
            i += 1;
        }
        None
    }

    /// Remove the first occurrence of `value`; `true` when one was removed.
    pub fn remove_value(&mut self, value: &T) -> (r: bool)
        ensures
            !r ==> final(self)@ == old(self)@,
            r ==> exists|k: int|
                0 <= k < old(self)@.len() && final(self)@ == old(self)@.remove(k) && (
                obeys_concrete_eq::<T>() ==> is_first_index(old(self)@, *value, k)),
            obeys_concrete_eq::<T>() ==> r == old(self)@.contains(*value),
            final(self).has_hook() == old(self).has_hook(),
            !r ==> final(self).reported() == old(self).reported(),
            r ==> exists|k: int|
                0 <= k < old(self)@.len() && final(self).reported() == old(self).reported()
                    + reported_if(old(self).has_hook(), ListChange::Remove { index: k as usize })
                    && final(self)@ == old(self)@.remove(k),
    {
        match self.index_of(value) {
            Some(i) => {
                let _ = self.remove(i);
                assert(old(self)@[i as int] == old(self)@[i as int]);
                true
            },
            None => false,
        }
    }
}

impl<T: Clone> BasicEList<T> {
    /// Move the element at `object_index` to `new_position`, returning a
    /// clone of the moved value; the element ends at `new_position`.
    /// Out-of-range indices give `None` and leave the list unchanged.
    pub fn move_element(&mut self, new_position: usize, object_index: usize) -> (r: Option<T>)
        ensures
            (object_index >= old(self)@.len() || new_position >= old(self)@.len()) ==> r is None
                && final(self)@ == old(self)@,
            (object_index < old(self)@.len() && new_position < old(self)@.len()) ==> {
                &&& final(self)@ == moved(old(self)@, new_position as int, object_index as int)
                &&& r matches Some(x) && cloned(old(self)@[object_index as int], x)
            },
            final(self).has_hook() == old(self).has_hook(),
            final(self).reported() == old(self).reported() + (if object_index < old(self)@.len()
                && new_position < old(self)@.len() {
                reported_if(
                    old(self).has_hook(),
                    ListChange::Move { from: object_index, to: new_position },
                )
            } else {
                Seq::empty()
            }),
    {
        if object_index >= self.data.len() || new_position >= self.data.len() {
            proof {
                assert(self.reported@ =~= old(self).reported@ + Seq::<ListChange>::empty());
            }
            return None;
        }
        let v = self.data.remove(object_index);
        self.data.insert(new_position, v);
        self.notify(ListChange::Move { from: object_index, to: new_position });
        Some(self.data[new_position].clone())
    }
}

/// The sequence after moving the element at `from` to `to` (EMF
/// `EList.move`): the element is taken out and put back so that it ends at
/// position `to`; the others keep their order.
pub open spec fn moved<T>(s: Seq<T>, to: int, from: int) -> Seq<T> {
    s.remove(from).insert(to, s[from])
}

/// `UniqueEList<T>`: a list whose insertions refuse duplicate elements.
pub struct UniqueEList<T> {
    inner: BasicEList<T>,
}

impl<T> View for UniqueEList<T> {
    type V = Seq<T>;

    closed spec fn view(&self) -> Seq<T> {
        self.inner@
    }
}

/// Distinct error kinds for the uniqueness-constrained operations.
#[derive(Debug, Clone, Copy, PartialEq, Eq)]
pub enum UniqueDuplicateError {
    /// The value is already present elsewhere in the list.
    Duplicate,
    /// The index is out of range.
    OutOfRange,
}

impl<T> UniqueEList<T> {
    /// New empty list.
    pub fn new() -> (r: Self)
        ensures
            r@ == Seq::<T>::empty(),
    {
        UniqueEList { inner: BasicEList::new() }
    }

    /// New empty list with room reserved for `capacity` elements.
    pub fn with_capacity(capacity: usize) -> (r: Self)
        ensures
            r@ == Seq::<T>::empty(),
    {
        UniqueEList { inner: BasicEList::from_vec(Vec::with_capacity(capacity)) }
    }

    /// A read-only view of the list as a `BasicEList`.
    pub fn as_basic_elist(&self) -> (r: &BasicEList<T>)
        ensures
            r@ == self@,
    {
        &self.inner
    }
}

impl<T> Default for UniqueEList<T> {
    fn default() -> (r: Self)
        ensures
            r@ == Seq::<T>::empty(),
    {
        Self::new()
    }
}

impl<T: PartialEq> UniqueEList<T> {
    /// The elements the `EList` contracts speak of are the list's view.
    pub proof fn lemma_elements_are_view(&self)
        ensures
            self.elements() == self@,
    {
    }

    /// Build from `values`, keeping the first occurrence of each element.
    pub fn from_vec(values: Vec<T>) -> (r: Self)
        ensures
            obeys_concrete_eq::<T>() ==> r@ == dedup(values@),
    {
        let mut l = UniqueEList::new();
        let ghost vs = values@;
        for v in it: values.into_iter()
            invariant
                it.seq() == vs,
                obeys_concrete_eq::<T>() ==> l@ == dedup(vs.take(it.index() as int)),
        {
            proof {
                let k = it.index() as int;
                assert(vs.take(k + 1).drop_last() == vs.take(k));
                assert(vs.take(k + 1).last() == v);
            }
            let _ = l.inner.add_unique(v);
        }
        proof {
            assert(vs.take(vs.len() as int) == vs);
        }
        l
    }

    /// Build from the items of a collection, dropping duplicates (first
    /// occurrences kept, in order).
    pub fn from_iter(iter: Vec<T>) -> (r: Self)
        ensures
            obeys_concrete_eq::<T>() ==> r@ == dedup(iter@),
            obeys_concrete_eq::<T>() ==> r@.no_duplicates(),
    {
        proof {
            lemma_dedup(iter@);
        }
        Self::from_vec(iter)
    }
}

impl<T: PartialEq> UniqueEList<T> {
    /// Insert `value` at `index`, refusing a value already present
    /// (`Duplicate`, checked first) and an index past the end (`OutOfRange`).
    pub fn try_add_at_index(&mut self, index: usize, value: T) -> (r: Result<(), UniqueDuplicateError>)
        ensures
            match r {
                Ok(()) => index <= old(self)@.len() && final(self)@ == old(self)@.insert(
                    index as int,
                    value,
                ) && (obeys_concrete_eq::<T>() ==> !old(self)@.contains(value)),
                Err(UniqueDuplicateError::Duplicate) => final(self)@ == old(self)@ && (
                obeys_concrete_eq::<T>() ==> old(self)@.contains(value)),
                Err(UniqueDuplicateError::OutOfRange) => final(self)@ == old(self)@ && index > old(
                    self,
                )@.len() && (obeys_concrete_eq::<T>() ==> !old(self)@.contains(value)),
            },
            obeys_concrete_eq::<T>() && old(self)@.no_duplicates() ==> final(self)@.no_duplicates(),
    {
        if self.inner.contains(&value) {
            return Err(UniqueDuplicateError::Duplicate);
        }
        if index > self.inner.len() {
            return Err(UniqueDuplicateError::OutOfRange);
        }
        self.inner.insert_at(index, value);
        proof {
            if obeys_concrete_eq::<T>() && old(self)@.no_duplicates() {
                lemma_insert_fresh_no_duplicates(old(self)@, index as int, value);
            }
        }
        Ok(())
    }

    /// Replace the element at `index` with `value`, refusing an index out of
    /// range (`OutOfRange`, checked first) and a value present at another
    /// index (`Duplicate`); on success returns the replaced element.
    pub fn try_set(&mut self, index: usize, value: T) -> (r: Result<Option<T>, UniqueDuplicateError>)
        ensures
            match r {
                Ok(prev) => index < old(self)@.len() && prev == Some(old(self)@[index as int])
                    && final(self)@ == old(self)@.update(index as int, value) && (
                obeys_concrete_eq::<T>() ==> !other_index_holds(old(self)@, index as int, value)),
                Err(UniqueDuplicateError::Duplicate) => final(self)@ == old(self)@ && index < old(
                    self,
                )@.len() && (obeys_concrete_eq::<T>() ==> other_index_holds(
                    old(self)@,
                    index as int,
                    value,
                )),
                Err(UniqueDuplicateError::OutOfRange) => final(self)@ == old(self)@ && index >= old(
                    self,
                )@.len(),
            },
            obeys_concrete_eq::<T>() && old(self)@.no_duplicates() ==> final(self)@.no_duplicates(),
    {
        if index >= self.inner.data.len() {
            return Err(UniqueDuplicateError::OutOfRange);
        }
        let mut i: usize = 0;
        while i < self.inner.data.len()
            invariant
                i <= self.inner.data@.len(),
                index < self.inner.data@.len(),
                obeys_concrete_eq::<T>() ==> forall|j: int|
                    0 <= j < i && j != index ==> self.inner.data@[j] != value,
            decreases self.inner.data@.len() - i,
        {
            let same = self.inner.data[i] == value;
            proof {
                if obeys_concrete_eq::<T>() {
                    reveal(obeys_concrete_eq);
                }
            }
            if i != index && same {
                return Err(UniqueDuplicateError::Duplicate);
            }
            i += 1;
        }
        let prev = self.inner.replace_at(index, value);
        proof {
            if obeys_concrete_eq::<T>() && old(self)@.no_duplicates() {
                let s = final(self)@;
                assert forall|a: int, b: int| 0 <= a < s.len() && 0 <= b < s.len() && a != b implies s[a] != s[b] by {
                    if a != index && b != index {
                        assert(old(self)@[a] != old(self)@[b]);
                    }
                }
            }
        }
        Ok(Some(prev))
    }
}

impl<T: PartialEq + Clone> UniqueEList<T> {
    /// Move the element at `object_index` to `new_position` (the same rules
    /// as `BasicEList::move_element`).
    pub fn move_element(&mut self, new_position: usize, object_index: usize) -> (r: Option<T>)
        ensures
            (object_index >= old(self)@.len() || new_position >= old(self)@.len()) ==> r is None
                && final(self)@ == old(self)@,
            (object_index < old(self)@.len() && new_position < old(self)@.len()) ==> {
                &&& final(self)@ == moved(old(self)@, new_position as int, object_index as int)
                &&& r matches Some(x) && cloned(old(self)@[object_index as int], x)
            },
    {
        self.inner.move_element(new_position, object_index)
    }
}

/// Some position other than `index` holds `v`.
pub open spec fn other_index_holds<T>(s: Seq<T>, index: int, v: T) -> bool {
    exists|j: int| 0 <= j < s.len() && j != index && s[j] == v
}

/// Inserting an element that is absent keeps a sequence free of duplicates.
proof fn lemma_insert_fresh_no_duplicates<T>(s: Seq<T>, index: int, v: T)
    requires
        0 <= index <= s.len(),
        s.no_duplicates(),
        !s.contains(v),
    ensures
        s.insert(index, v).no_duplicates(),
{
    let t = s.insert(index, v);
    assert forall|a: int, b: int| 0 <= a < t.len() && 0 <= b < t.len() && a != b implies t[a] != t[b] by {
        let sa = if a < index { a } else { a - 1 };
        let sb = if b < index { b } else { b - 1 };
        if a != index && b != index {
            assert(t[a] == s[sa]);
            assert(t[b] == s[sb]);
        } else if a == index {
            assert(t[b] == s[sb]);
        } else {
            assert(t[a] == s[sa]);
        }
    }
}

/// Pushing an element that is absent keeps a sequence free of duplicates.
proof fn lemma_push_fresh_no_duplicates<T>(s: Seq<T>, v: T)
    requires
        s.no_duplicates(),
        !s.contains(v),
    ensures
        s.push(v).no_duplicates(),
{
    assert(s.push(v) == s.insert(s.len() as int, v));
    lemma_insert_fresh_no_duplicates(s, s.len() as int, v);
}

impl<T: PartialEq> EList<T> for UniqueEList<T> {
    closed spec fn elements(&self) -> Seq<T> {
        self.inner@
    }

    fn len(&self) -> (r: usize) {
        self.inner.len()
    }

    fn get(&self, i: usize) -> (r: Option<&T>) {
        self.inner.get(i)
    }

    /// Add `value` unless it is already present.
    fn add(&mut self, value: T)
        ensures
            obeys_concrete_eq::<T>() ==> final(self)@ == (if old(self)@.contains(value) {
                old(self)@
            } else {
                old(self)@.push(value)
            }),
            obeys_concrete_eq::<T>() && old(self)@.no_duplicates() ==> final(self)@.no_duplicates(),
    {
        let added = self.inner.add_unique(value);
        proof {
            if obeys_concrete_eq::<T>() && added && old(self)@.no_duplicates() {
                lemma_push_fresh_no_duplicates(old(self)@, value);
            }
        }
    }

    fn remove(&mut self, i: usize) -> (r: Option<T>) {
        self.inner.remove(i)
    }

    /// Replace the element at `i` unless another position already holds
    /// `value`; a refused or out-of-range replacement returns `None` and
    /// changes nothing.
    fn set(&mut self, i: usize, value: T) -> (r: Option<T>)
        ensures
            i >= old(self)@.len() ==> r is None && final(self)@ == old(self)@,
            obeys_concrete_eq::<T>() && i < old(self)@.len() ==> if other_index_holds(
                old(self)@,
                i as int,
                value,
            ) {
                r is None && final(self)@ == old(self)@
            } else {
                r == Some(old(self)@[i as int]) && final(self)@ == old(self)@.update(i as int, value)
            },
            obeys_concrete_eq::<T>() && old(self)@.no_duplicates() ==> final(self)@.no_duplicates(),
    {
        match self.try_set(i, value) {
            Ok(prev) => prev,
            Err(_) => None,
        }
    }

    fn clear(&mut self) {
        self.inner.clear()
    }

    fn contains(&self, value: &T) -> (r: bool) {
        self.inner.contains(value)
    }

    fn iter(&self) -> (r: std::slice::Iter<'_, T>) {
        self.inner.iter()
    }
}

/// A uniqueness-constrained list whose duplicate test is the element
/// type's `==`.
pub struct FastCompareUniqueEList<T: PartialEq>(UniqueEList<T>);

impl<T: PartialEq> View for FastCompareUniqueEList<T> {
    type V = Seq<T>;

    closed spec fn view(&self) -> Seq<T> {
        self.0@
    }
}

impl<T: PartialEq> FastCompareUniqueEList<T> {
    /// New empty list.
    pub fn new() -> (r: Self)
        ensures
            r@ == Seq::<T>::empty(),
    {
        FastCompareUniqueEList(UniqueEList::new())
    }

    /// Add `value`, returning `false` (and changing nothing) if it is already
    /// present.
    pub fn add(&mut self, value: T) -> (r: bool)
        ensures
            final(self)@ == (if r {
                old(self)@.push(value)
            } else {
                old(self)@
            }),
            obeys_concrete_eq::<T>() ==> r == !old(self)@.contains(value),
            obeys_concrete_eq::<T>() && old(self)@.no_duplicates() ==> final(self)@.no_duplicates(),
    {
        if self.0.contains(&value) {
            return false;
        }
        self.0.inner.add(value);
        proof {
            if obeys_concrete_eq::<T>() && old(self)@.no_duplicates() {
                lemma_push_fresh_no_duplicates(old(self)@, value);
            }
        }
        true
    }

    /// Number of elements.
    pub fn len(&self) -> (r: usize)
        ensures
            r == self@.len(),
    {
        self.0.len()
    }

    /// Whether empty.
    pub fn is_empty(&self) -> (r: bool)
        ensures
            r == (self@.len() == 0),
    {
        self.0.is_empty()
    }
}

impl<T: PartialEq> Default for FastCompareUniqueEList<T> {
    fn default() -> (r: Self)
        ensures
            r@ == Seq::<T>::empty(),
    {
        Self::new()
    }
}

/// A list that sends a change notification through its notifier after each
/// change when it is active (made with `with_notifier`); a passive list (made
/// with `new`) never notifies. The notification carries the element values
/// converted into the notifier's value type.
pub struct NotifyingList<T, A, N> {
    data: Vec<T>,
    notifier: Option<Notifier<A, N>>,
    feature_id: i32,
    required: bool,
    sent: Ghost<Seq<(EventType, i32)>>,
}

impl<T, A, N> View for NotifyingList<T, A, N> {
    type V = Seq<T>;

    closed spec fn view(&self) -> Seq<T> {
        self.data@
    }
}

impl<T: Clone, A: Adapter<N>, N: NotificationValue + From<T>> NotifyingList<T, A, N> {
    /// The list sends notifications.
    pub closed spec fn is_active(&self) -> bool {
        self.required && self.notifier is Some
    }

    /// The list has a notifier.
    pub closed spec fn has_notifier(&self) -> bool {
        self.notifier is Some
    }

    /// The feature id the list reports.
    pub closed spec fn feature_id_spec(&self) -> i32 {
        self.feature_id
    }

    /// The event and position of every notification the list has sent to
    /// its notifier, in order.
    pub closed spec fn sent(&self) -> Seq<(EventType, i32)> {
        self.sent@
    }

    /// What the list has sent after a change that notifies `e`: `e` is sent
    /// when the list is active.
    pub open spec fn sent_after(&self, e: (EventType, i32)) -> Seq<(EventType, i32)> {
        if self.is_active() {
            self.sent().push(e)
        } else {
            self.sent()
        }
    }

    /// A passive, empty list: no notifier, feature id -1.
    pub fn new() -> (r: Self)
        ensures
            r@ == Seq::<T>::empty(),
            !r.has_notifier(),
            !r.is_active(),
            r.feature_id_spec() == -1,
            r.sent() == Seq::<(EventType, i32)>::empty(),
    {
        NotifyingList { data: Vec::new(), notifier: None, feature_id: -1, required: false, sent: Ghost(Seq::empty()) }
    }

    /// An active, empty list that notifies through `notifier`; its feature id
    /// is 42.
    pub fn with_notifier(notifier: Notifier<A, N>) -> (r: Self)
        ensures
            r@ == Seq::<T>::empty(),
            r.has_notifier(),
            r.is_active(),
            r.feature_id_spec() == 42,
            r.sent() == Seq::<(EventType, i32)>::empty(),
    {
        NotifyingList {
            data: Vec::new(),
            notifier: Some(notifier),
            feature_id: 42,
            required: true,
            sent: Ghost(Seq::empty()),
        }
    }

    /// The number of elements.
    pub fn len(&self) -> (r: usize)
        ensures
            r == self@.len(),
    {
        self.data.len()
    }

    /// The list is empty.
    pub fn is_empty(&self) -> (r: bool)
        ensures
            r == (self@.len() == 0),
    {
        self.data.len() == 0
    }

    /// The element at `i`, if any.
    pub fn get(&self, i: usize) -> (r: Option<&T>)
        ensures
            i < self@.len() ==> r == Some(&self@[i as int]),
            i >= self@.len() ==> r is None,
    {
        if i < self.data.len() {
            Some(&self.data[i])
        } else {
            None
        }
    }

    /// The list has no notifier.
    pub fn get_notifier_is_null(&self) -> (r: bool)
        ensures
            r == !self.has_notifier(),
    {
        self.notifier.is_none()
    }

    /// The feature id the notifications report.
    pub fn get_feature_id(&self) -> (r: i32)
        ensures
            r == self.feature_id_spec(),
    {
        self.feature_id
    }

    /// Sends a notification with the given event, values and position
    /// through the notifier when the list is active.
    fn dispatch(&mut self, event: EventType, old_value: N, new_value: N, position: i32)
        ensures
            final(self)@ == old(self)@,
            final(self).has_notifier() == old(self).has_notifier(),
            final(self).is_active() == old(self).is_active(),
            final(self).feature_id_spec() == old(self).feature_id_spec(),
            final(self).sent() == old(self).sent_after((event, position)),
    {
        if !self.required {
            return;
        }
        match &mut self.notifier {
            Some(n) => {
                let nt = Notification::new(event, None, old_value, new_value, position, false);
                n.e_notify(&nt);
            },
            None => {},
        }
        if self.notifier.is_some() {
            proof {
                self.sent = Ghost(self.sent@.push((event, position)));
            }
        }
    }

    /// Appends `value` (notification: `Add` at the old length).
    pub fn add(&mut self, value: T)
        ensures
            final(self)@ == old(self)@.push(value),
            final(self).sent() == old(self).sent_after((EventType::Add, old(self)@.len() as i32)),
            final(self).has_notifier() == old(self).has_notifier(),
            final(self).is_active() == old(self).is_active(),
            final(self).feature_id_spec() == old(self).feature_id_spec(),
    {
        let index = self.data.len() as i32;
        let v = N::from(value.clone());
        self.data.push(value);
        self.dispatch(EventType::Add, N::null_value(), v, index);
    }

    /// Inserts `value` at `index` (notification: `Add` at `index`).
    pub fn add_at_index(&mut self, index: usize, value: T)
        requires
            index <= old(self)@.len(),
        ensures
            final(self)@ == old(self)@.insert(index as int, value),
            final(self).sent() == old(self).sent_after((EventType::Add, index as i32)),
            final(self).has_notifier() == old(self).has_notifier(),
            final(self).is_active() == old(self).is_active(),
            final(self).feature_id_spec() == old(self).feature_id_spec(),
    {
        let v = N::from(value.clone());
        self.data.insert(index, value);
        self.dispatch(EventType::Add, N::null_value(), v, index as i32);
    }

    /// Appends clones of `values` in order (notification: `Add` for one
    /// value, `AddMany` with the list of values for several, none for none,
    /// at the old length).
    pub fn add_all(&mut self, values: Vec<T>)
        ensures
            final(self)@.len() == old(self)@.len() + values@.len(),
            final(self)@.take(old(self)@.len() as int) == old(self)@,
            forall|i: int|
                0 <= i < values@.len() ==> cloned::<T>(
                    values@[i],
                    #[trigger] final(self)@[old(self)@.len() + i],
                ),
            values@.len() == 0 ==> final(self).sent() == old(self).sent(),
            values@.len() == 1 ==> final(self).sent() == old(self).sent_after((EventType::Add, old(self)@.len() as i32)),
            values@.len() > 1 ==> final(self).sent() == old(self).sent_after((EventType::AddMany, old(self)@.len() as i32)),
            final(self).has_notifier() == old(self).has_notifier(),
            final(self).is_active() == old(self).is_active(),
            final(self).feature_id_spec() == old(self).feature_id_spec(),
    {
        let start = self.data.len() as i32;
        let n = values.len();
        let ghost base = self.data@;
        let mut i: usize = 0;
        while i < n
            invariant
                n == values@.len(),
                i <= n,
                self.data@.len() == base.len() + i,
                self.data@.take(base.len() as int) == base,
                forall|k: int|
                    0 <= k < i ==> cloned::<T>(values@[k], #[trigger] self.data@[base.len() + k]),
                self.notifier == old(self).notifier,
                self.required == old(self).required,
                self.feature_id == old(self).feature_id,
                self.sent == old(self).sent,
                base == old(self).data@,
            decreases n - i,
        {
            let v = values[i].clone();
            self.data.push(v);
            proof {
                assert(self.data@.take(base.len() as int) =~= base);
            }
            i += 1;
        }
        if n == 1 {
            let single = N::from(values[0].clone());
            self.dispatch(EventType::Add, N::null_value(), single, start);
        } else if n > 1 {
            let mut list: Vec<N> = Vec::new();
            let mut j: usize = 0;
            while j < n
                invariant
                    n == values@.len(),
                    j <= n,
                decreases n - j,
            {
                list.push(N::from(values[j].clone()));
                j += 1;
            }
            self.dispatch(EventType::AddMany, N::null_value(), N::list_value(list), start);
        }
    }

    /// Removes and returns the element at `index`, or `None` when out of range
    /// (notification: `Remove` at `index`).
    pub fn remove(&mut self, index: usize) -> (r: Option<T>)
        ensures
            index >= old(self)@.len() ==> r is None && final(self)@ == old(self)@,
            index < old(self)@.len() ==> r == Some(old(self)@[index as int]) && final(self)@
                == old(self)@.remove(index as int),
            index >= old(self)@.len() ==> final(self).sent() == old(self).sent(),
            index < old(self)@.len() ==> final(self).sent() == old(self).sent_after((EventType::Remove, index as i32)),
            final(self).has_notifier() == old(self).has_notifier(),
            final(self).is_active() == old(self).is_active(),
            final(self).feature_id_spec() == old(self).feature_id_spec(),
    {
        if index >= self.data.len() {
            return None;
        }
        let v = self.data.remove(index);
        let old_value = N::from(v.clone());
        self.dispatch(EventType::Remove, old_value, N::null_value(), index as i32);
        Some(v)
    }

    /// Replaces the element at `index` and returns the previous one, or `None`
    /// when out of range (notification: `Set` at `index`).
    pub fn set(&mut self, index: usize, value: T) -> (r: Option<T>)
        ensures
            index >= old(self)@.len() ==> r is None && final(self)@ == old(self)@,
            index < old(self)@.len() ==> r == Some(old(self)@[index as int]) && final(self)@
                == old(self)@.update(index as int, value),
            index >= old(self)@.len() ==> final(self).sent() == old(self).sent(),
            index < old(self)@.len() ==> final(self).sent() == old(self).sent_after((EventType::SetValue, index as i32)),
            final(self).has_notifier() == old(self).has_notifier(),
            final(self).is_active() == old(self).is_active(),
            final(self).feature_id_spec() == old(self).feature_id_spec(),
    {
        if index >= self.data.len() {
            return None;
        }
        let mut previous = value;
        std::mem::swap(&mut self.data[index], &mut previous);
        let old_value = N::from(previous.clone());
        let new_value = N::from(self.data[index].clone());
        self.dispatch(EventType::SetValue, old_value, new_value, index as i32);
        Some(previous)
    }

    /// Moves the element at `object_index` to `new_position` as
    /// `BasicEList::move_element` does and returns a clone of it, or `None`
    /// when an index is out of range (notification: `Move` at `new_position`).
    pub fn move_element(&mut self, new_position: usize, object_index: usize) -> (r: Option<T>)
        ensures
            (object_index >= old(self)@.len() || new_position >= old(self)@.len()) ==> r is None
                && final(self)@ == old(self)@,
            (object_index < old(self)@.len() && new_position < old(self)@.len()) ==> {
                &&& final(self)@ == moved(old(self)@, new_position as int, object_index as int)
                &&& r matches Some(x) && cloned(old(self)@[object_index as int], x)
                &&& final(self).sent() == old(self).sent_after((EventType::Move, new_position as i32))
            },
            (object_index >= old(self)@.len() || new_position >= old(self)@.len()) ==> final(self).sent() == old(
                self,
            ).sent(),
            final(self).has_notifier() == old(self).has_notifier(),
            final(self).is_active() == old(self).is_active(),
            final(self).feature_id_spec() == old(self).feature_id_spec(),
    {
        if object_index >= self.data.len() || new_position >= self.data.len() {
            return None;
        }
        let v = self.data.remove(object_index);
        self.data.insert(new_position, v);
        let moved_value = N::from(self.data[new_position].clone());
        self.dispatch(EventType::Move, N::null_value(), moved_value, new_position as i32);
        Some(self.data[new_position].clone())
    }

    /// Empties the list (notification: `RemoveMany` with the list of the old
    /// values at position 0; none when the list was already empty).
    pub fn clear(&mut self)
        ensures
            final(self)@ == Seq::<T>::empty(),
            old(self)@.len() == 0 ==> final(self).sent() == old(self).sent(),
            old(self)@.len() > 0 ==> final(self).sent() == old(self).sent_after((EventType::RemoveMany, 0i32)),
            final(self).has_notifier() == old(self).has_notifier(),
            final(self).is_active() == old(self).is_active(),
            final(self).feature_id_spec() == old(self).feature_id_spec(),
    {
        let n = self.data.len();
        if n == 0 {
            return;
        }
        let mut old_values: Vec<N> = Vec::new();
        let mut i: usize = 0;
        while i < n
            invariant
                n == self.data@.len(),
                i <= n,
            decreases n - i,
        {
            old_values.push(N::from(self.data[i].clone()));
            i += 1;
        }
        self.data.truncate(0);
        proof {
            assert(self.data@ =~= Seq::<T>::empty());
        }
        self.dispatch(EventType::RemoveMany, N::list_value(old_values), N::null_value(), 0);
    }
}

impl<T: Clone + PartialEq, A: Adapter<N>, N: NotificationValue + From<T>> NotifyingList<T, A, N> {
    /// The list holds `value`.
    pub fn contains(&self, value: &T) -> (r: bool)
        ensures
            obeys_concrete_eq::<T>() ==> r == self@.contains(*value),
    {
        let mut i: usize = 0;
        while i < self.data.len()
            invariant
                i <= self.data@.len(),
                obeys_concrete_eq::<T>() ==> forall|j: int| 0 <= j < i ==> self.data@[j] != *value,
            decreases self.data@.len() - i,
        {
            let same = self.data[i] == *value;
            proof {
                if obeys_concrete_eq::<T>() {
                    reveal(obeys_concrete_eq);
                }
            }
            if same {
                return true;
            }
            i += 1;
        }
        false
    }
}

} // verus!

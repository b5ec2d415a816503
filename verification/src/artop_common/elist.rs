//! An ordered list interface and its `Vec`-backed implementation.
use vstd::prelude::*;
use vstd::std_specs::iter::IteratorSpec;

verus! {

/// Ordered list interface corresponding to EMF's `EList`.
pub trait EList<T>: Sized {
    /// The elements, in order.
    spec fn elements(&self) -> Seq<T>;

    /// Number of elements.
    fn len(&self) -> (r: usize)
        ensures
            r == self.elements().len(),
    ;

    /// Whether the list is empty.
    fn is_empty(&self) -> (r: bool)
        ensures
            r == (self.elements().len() == 0),
    {
        self.len() == 0
    }

    /// Element at position `i`, if any.
    fn get(&self, i: usize) -> (r: Option<&T>)
        ensures
            i < self.elements().len() ==> r == Some(&self.elements()[i as int]),
            i >= self.elements().len() ==> r is None,
    ;

    /// Append `v`.
    fn push(&mut self, v: T)
        ensures
            final(self).elements() == old(self).elements().push(v),
    ;

    /// Remove the element at `i`, if any.
    fn remove(&mut self, i: usize) -> (r: Option<T>)
        ensures
            i < old(self).elements().len() ==> r == Some(old(self).elements()[i as int])
                && final(self).elements() == old(self).elements().remove(i as int),
            i >= old(self).elements().len() ==> r is None && final(self).elements() == old(
                self,
            ).elements(),
    ;
}

/// Standard growable list backed by `Vec`.
#[derive(Debug, Clone)]
pub struct BasicEList<T>(Vec<T>);

impl<T> View for BasicEList<T> {
    type V = Seq<T>;

    closed spec fn view(&self) -> Seq<T> {
        self.0@
    }
}

impl<T> Default for BasicEList<T> {
    fn default() -> (r: Self)
        ensures
            r@ == Seq::<T>::empty(),
    {
        Self::new()
    }
}

impl<T> BasicEList<T> {
    /// Empty list.
    pub fn new() -> (r: Self)
        ensures
            r@ == Seq::<T>::empty(),
    {
        BasicEList(Vec::new())
    }

    /// The elements as a slice.
    pub fn as_slice(&self) -> (r: &[T])
        ensures
            r@ == self@,
    {
        self.0.as_slice()
    }

    /// The elements, consumed, as an iterator.
    pub fn into_iter(self) -> (r: std::vec::IntoIter<T>)
        ensures
            IteratorSpec::remaining(&r) == self@,
    {
        self.0.into_iter()
    }
}

impl<T> EList<T> for BasicEList<T> {
    open spec fn elements(&self) -> Seq<T> {
        self@
    }

    fn len(&self) -> (r: usize) {
        self.0.len()
    }

    fn get(&self, i: usize) -> (r: Option<&T>) {
        if i < self.0.len() {
            Some(&self.0[i])
        } else {
            None
        }
    }

    fn push(&mut self, v: T) {
        self.0.push(v);
    }

    fn remove(&mut self, i: usize) -> (r: Option<T>) {
        if i < self.0.len() {
            Some(self.0.remove(i))
        } else {
            None
        }
    }
}

} // verus!

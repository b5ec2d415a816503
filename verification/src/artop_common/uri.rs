//! A URI held as its text.
use vstd::prelude::*;

verus! {

/// A URI as an owned string.
#[derive(Debug, Clone, PartialEq, Eq, Hash)]
pub struct Uri(String);

impl View for Uri {
    type V = Seq<char>;

    closed spec fn view(&self) -> Seq<char> {
        self.0@
    }
}

impl Uri {
    /// A URI with the text `value`.
    pub fn new(value: &str) -> (r: Self)
        ensures
            r@ == value@,
    {
        Uri(value.to_owned())
    }

    /// The URI's text.
    pub fn value(&self) -> (r: &str)
        ensures
            r@ == self@,
    {
        self.0.as_str()
    }

    /// The display text: the URI's text.
    pub fn to_string(&self) -> (r: String)
        ensures
            r@ == self@,
    {
        self.0.clone()
    }
}

} // verus!

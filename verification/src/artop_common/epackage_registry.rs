//! Registry binding namespace URIs to package names (EMF
//! `EPackage.Registry`).
use vstd::prelude::*;
use crate::text::{chars_eq, chars_of};

verus! {

/// Position of the first entry of `es` registered under `ns_uri`.
pub open spec fn first_ns_index(es: Seq<(Seq<char>, Seq<char>)>, ns_uri: Seq<char>, i: int) -> Option<int>
    decreases es.len() - i,
{
    if i < 0 || i >= es.len() {
        None
    } else if es[i].0 == ns_uri {
        Some(i)
    } else {
        first_ns_index(es, ns_uri, i + 1)
    }
}

/// Registry binding namespace URIs to packages; a URI registered twice is
/// found at its first registration.
#[derive(Debug, Clone, Default)]
pub struct EPackageRegistry {
    entries: Vec<(String, String)>,
}

impl View for EPackageRegistry {
    type V = Seq<(Seq<char>, Seq<char>)>;

    closed spec fn view(&self) -> Seq<(Seq<char>, Seq<char>)> {
        self.entries@.map_values(|e: (String, String)| (e.0@, e.1@))
    }
}

impl EPackageRegistry {
    /// New empty registry.
    pub fn new() -> (r: Self)
        ensures
            r@ == Seq::<(Seq<char>, Seq<char>)>::empty(),
    {
        EPackageRegistry { entries: Vec::new() }
    }

    /// Register `package` under `ns_uri`.
    pub fn register(&mut self, ns_uri: &str, package: &str)
        ensures
            final(self)@ == old(self)@.push((ns_uri@, package@)),
    {
        let e = (ns_uri.to_owned(), package.to_owned());
        let ghost prev = self.entries@;
        self.entries.push(e);
        proof {
            crate::text::lemma_map_push(prev, e, |e: (String, String)| (e.0@, e.1@));
        }
    }

    /// The package registered (first) under `ns_uri`.
    pub fn lookup(&self, ns_uri: &str) -> (r: Option<&str>)
        ensures
            match first_ns_index(self@, ns_uri@, 0) {
                Some(i) => r matches Some(p) && p@ == self@[i].1,
                None => r is None,
            },
    {
        let key = chars_of(ns_uri);
        let mut i: usize = 0;
        while i < self.entries.len()
            invariant
                i <= self@.len(),
                self@.len() == self.entries@.len(),
                key@ == ns_uri@,
                first_ns_index(self@, ns_uri@, 0) == first_ns_index(self@, ns_uri@, i as int),
            decreases self.entries@.len() - i,
        {
            let k = chars_of(self.entries[i].0.as_str());
            if chars_eq(k.as_slice(), key.as_slice()) {
                return Some(self.entries[i].1.as_str());
            }
            i += 1;
        }
        None
    }
}

/// A lookup after registering a fresh namespace URI finds the package just
/// registered; other URIs find what they found before.
pub proof fn lemma_register_then_lookup(es: Seq<(Seq<char>, Seq<char>)>, ns_uri: Seq<char>, package: Seq<char>, other: Seq<char>)
    requires
        first_ns_index(es, ns_uri, 0) is None,
    ensures
        first_ns_index(es.push((ns_uri, package)), ns_uri, 0) == Some(es.len() as int),
        other != ns_uri ==> first_ns_index(es.push((ns_uri, package)), other, 0) == first_ns_index(
            es,
            other,
            0,
        ),
{
    lemma_first_ns_push(es, (ns_uri, package), ns_uri, 0);
    lemma_first_ns_push(es, (ns_uri, package), other, 0);
}

/// Searching after a push finds what was found before, else the pushed
/// entry when its URI matches.
proof fn lemma_first_ns_push(es: Seq<(Seq<char>, Seq<char>)>, e: (Seq<char>, Seq<char>), k: Seq<char>, i: int)
    requires
        0 <= i <= es.len(),
    ensures
        first_ns_index(es.push(e), k, i) == match first_ns_index(es, k, i) {
            Some(j) => Some(j),
            None => if e.0 == k {
                Some(es.len() as int)
            } else {
                None
            },
        },
    decreases es.len() - i,
{
    let s = es.push(e);
    if i < es.len() {
        assert(s[i] == es[i]);
        lemma_first_ns_push(es, e, k, i + 1);
    } else {
        assert(s[i] == e);
        assert(first_ns_index(s, k, i + 1) is None);
    }
}

} // verus!

//! Ecore metamodel types: structural features, classifiers, classes,
//! packages and the package registry. Inheritance is metadata (a class lists
//! the names of its super types), not Rust subtyping.
use vstd::prelude::*;
use crate::artop_common::eobject::EObject;
use crate::artop_common::uri::Uri;
use crate::text::{chars_eq, chars_of};
use vstd::std_specs::iter::IteratorSpec;

verus! {

/// A structural feature: an attribute or a reference.
#[derive(Debug, Clone, PartialEq)]
pub struct EStructuralFeature {
    /// Feature name, e.g. `"shortName"`.
    pub name: String,
    /// Whether it is a reference rather than an attribute.
    pub is_reference: bool,
    /// Lower bound.
    pub lower_bound: i32,
    /// Upper bound; `-1` means unbounded.
    pub upper_bound: i32,
}

/// Discriminator for a classifier.
#[derive(Debug, Clone, Copy, PartialEq, Eq)]
pub enum ClassifierKind {
    /// A concrete class.
    Class,
    /// An abstract class (no constructible type).
    AbstractClass,
    /// An enum.
    Enum,
    /// A data type.
    DataType,
}

/// A classifier: an enum or a class.
#[derive(Debug, Clone, Copy, PartialEq, Eq)]
pub struct EClassifier {
    kind: ClassifierKind,
}

impl EClassifier {
    /// The classifier's kind.
    pub closed spec fn kind_spec(&self) -> ClassifierKind {
        self.kind
    }

    /// New classifier of the given kind.
    pub fn new(kind: ClassifierKind) -> (r: Self)
        ensures
            r.kind_spec() == kind,
    {
        EClassifier { kind }
    }

    /// The classifier kind.
    pub fn kind(&self) -> (r: ClassifierKind)
        ensures
            r == self.kind_spec(),
    {
        self.kind
    }
}

/// A class in the metamodel.
#[derive(Debug, Clone, PartialEq)]
pub struct EClass {
    name: String,
    kind: ClassifierKind,
    supers: Vec<String>,
    own_features: Vec<EStructuralFeature>,
}

impl EClass {
    /// Class name.
    pub closed spec fn name_spec(&self) -> Seq<char> {
        self.name@
    }

    /// Kind.
    pub closed spec fn kind_spec(&self) -> ClassifierKind {
        self.kind
    }

    /// Names of the super types, in order.
    pub closed spec fn supers_spec(&self) -> Seq<Seq<char>> {
        self.supers@.map_values(|s: String| s@)
    }

    /// Own (locally declared) features, in order.
    pub closed spec fn features_spec(&self) -> Seq<EStructuralFeature> {
        self.own_features@
    }

    /// New class with its metadata.
    pub fn new(name: &str, kind: ClassifierKind, supers: Vec<String>, own_features: Vec<EStructuralFeature>) -> (r: Self)
        ensures
            r.name_spec() == name@,
            r.kind_spec() == kind,
            r.supers_spec() == supers@.map_values(|s: String| s@),
            r.features_spec() == own_features@,
    {
        EClass { name: name.to_owned(), kind, supers, own_features }
    }

    /// Class name.
    pub fn name(&self) -> (r: &str)
        ensures
            r@ == self.name_spec(),
    {
        self.name.as_str()
    }

    /// `eSuperTypes`: parent class names (several for multiple inheritance).
    pub fn e_super_types(&self) -> (r: &[String])
        ensures
            r@.map_values(|s: String| s@) == self.supers_spec(),
    {
        self.supers.as_slice()
    }

    /// Own (locally declared) structural features.
    pub fn e_structural_features(&self) -> (r: &[EStructuralFeature])
        ensures
            r@ == self.features_spec(),
    {
        self.own_features.as_slice()
    }

    /// Whether the class is abstract.
    pub fn is_abstract(&self) -> (r: bool)
        ensures
            r == (self.kind_spec() == ClassifierKind::AbstractClass),
    {
        match self.kind {
            ClassifierKind::AbstractClass => true,
            _ => false,
        }
    }

    /// Names of the own features, in order.
    pub fn own_feature_names(&self) -> (r: std::vec::IntoIter<&str>)
        ensures
            IteratorSpec::remaining(&r).map_values(|s: &str| s@) == self.features_spec().map_values(
                |f: EStructuralFeature| f.name@,
            ),
    {
        let mut names: Vec<&str> = Vec::new();
        let mut i: usize = 0;
        while i < self.own_features.len()
            invariant
                i <= self.own_features@.len(),
                names@.map_values(|s: &str| s@) == self.own_features@.take(i as int).map_values(
                    |f: EStructuralFeature| f.name@,
                ),
            decreases self.own_features@.len() - i,
        {
            let n = self.own_features[i].name.as_str();
            let ghost prev = names@;
            names.push(n);
            proof {
                crate::text::lemma_map_push(prev, n, |s: &str| s@);
                assert(self.own_features@.take(i + 1) == self.own_features@.take(i as int).push(
                    self.own_features@[i as int],
                ));
                crate::text::lemma_map_push(
                    self.own_features@.take(i as int),
                    self.own_features@[i as int],
                    |f: EStructuralFeature| f.name@,
                );
            }
            i += 1;
        }
        assert(self.own_features@.take(self.own_features@.len() as int) == self.own_features@);
        names.into_iter()
    }
}

impl EObject for EClass {
    fn e_class(&self) -> (r: &'static str)
        ensures
            r@ == "EClass"@,
    {
        "EClass"
    }
}

/// A package in the metamodel.
#[derive(Debug, Clone)]
pub struct EPackage {
    name: String,
    ns_uri: Option<Uri>,
    classifiers: Vec<EClassifier>,
}

impl EPackage {
    /// Package name.
    pub closed spec fn name_spec(&self) -> Seq<char> {
        self.name@
    }

    /// Namespace URI text, if set.
    pub closed spec fn ns_uri_spec(&self) -> Option<Seq<char>> {
        match self.ns_uri {
            Some(u) => Some(u@),
            None => None,
        }
    }

    /// Classifiers, in order.
    pub closed spec fn classifiers_spec(&self) -> Seq<EClassifier> {
        self.classifiers@
    }

    /// New package without namespace URI or classifiers.
    pub fn new(name: &str) -> (r: Self)
        ensures
            r.name_spec() == name@,
            r.ns_uri_spec() is None,
            r.classifiers_spec() == Seq::<EClassifier>::empty(),
    {
        EPackage { name: name.to_owned(), ns_uri: None, classifiers: Vec::new() }
    }

    /// Package name, e.g. `"autosar40"`.
    pub fn name(&self) -> (r: &str)
        ensures
            r@ == self.name_spec(),
    {
        self.name.as_str()
    }

    /// Namespace URI, e.g. `http://autosar.org/schema/r4.0/autosar40`.
    pub fn ns_uri(&self) -> (r: Option<&Uri>)
        ensures
            match self.ns_uri_spec() {
                Some(t) => r matches Some(u) && u@ == t,
                None => r is None,
            },
    {
        match &self.ns_uri {
            Some(u) => Some(u),
            None => None,
        }
    }

    /// Set the namespace URI.
    pub fn set_ns_uri(&mut self, ns_uri: &str)
        ensures
            final(self).ns_uri_spec() == Some(ns_uri@),
            final(self).name_spec() == old(self).name_spec(),
            final(self).classifiers_spec() == old(self).classifiers_spec(),
    {
        self.ns_uri = Some(Uri::new(ns_uri));
    }

    /// Classifiers owned by this package.
    pub fn classifiers(&self) -> (r: &[EClassifier])
        ensures
            r@ == self.classifiers_spec(),
    {
        self.classifiers.as_slice()
    }
}

impl EObject for EPackage {
    fn e_class(&self) -> (r: &'static str)
        ensures
            r@ == "EPackage"@,
    {
        "EPackage"
    }
}

/// Factory entry point for creating model objects from a classifier.
#[derive(Debug, Clone, Copy)]
pub struct EFactory;

impl EFactory {
    /// The factory's kind tag.
    pub const KIND: &'static str = "artop-ecore.EFactory";
}

/// A package prepared for registration in a [`PackageRegistry`].
pub fn make_package_ref(pkg: EPackage) -> (r: EPackage)
    ensures
        r == pkg,
{
    pkg
}

/// Position of the first package of `ps` whose name is `name`, from `i` on.
pub open spec fn first_named(ps: Seq<EPackage>, name: Seq<char>, i: int) -> Option<int>
    decreases ps.len() - i,
{
    if i < 0 || i >= ps.len() {
        None
    } else if ps[i].name_spec() == name {
        Some(i)
    } else {
        first_named(ps, name, i + 1)
    }
}

/// Position of the first package of `ps` whose namespace URI is `ns_uri`,
/// from `i` on.
pub open spec fn first_with_ns(ps: Seq<EPackage>, ns_uri: Seq<char>, i: int) -> Option<int>
    decreases ps.len() - i,
{
    if i < 0 || i >= ps.len() {
        None
    } else if ps[i].ns_uri_spec() == Some(ns_uri) {
        Some(i)
    } else {
        first_with_ns(ps, ns_uri, i + 1)
    }
}

/// The registered packages, found by name or by namespace URI.
#[derive(Debug, Clone)]
pub struct PackageRegistry {
    packages: Vec<EPackage>,
}

impl View for PackageRegistry {
    type V = Seq<EPackage>;

    closed spec fn view(&self) -> Seq<EPackage> {
        self.packages@
    }
}

impl PackageRegistry {
    /// New empty registry.
    pub fn new() -> (r: Self)
        ensures
            r@ == Seq::<EPackage>::empty(),
    {
        PackageRegistry { packages: Vec::new() }
    }

    /// Register a package.
    pub fn register(&mut self, pkg: EPackage)
        ensures
            final(self)@ == old(self)@.push(pkg),
    {
        self.packages.push(pkg);
    }

    /// The first package named `name`.
    pub fn package(&self, name: &str) -> (r: Option<&EPackage>)
        ensures
            match first_named(self@, name@, 0) {
                Some(i) => r == Some(&self@[i]),
                None => r is None,
            },
    {
        let key = chars_of(name);
        let mut i: usize = 0;
        while i < self.packages.len()
            invariant
                i <= self@.len(),
                self@ == self.packages@,
                key@ == name@,
                first_named(self@, name@, 0) == first_named(self@, name@, i as int),
            decreases self.packages@.len() - i,
        {
            let p = &self.packages[i];
            let n = chars_of(p.name());
            if chars_eq(n.as_slice(), key.as_slice()) {
                return Some(p);
            }
            i += 1;
        }
        None
    }

    /// The first package whose namespace URI is `ns_uri`.
    pub fn package_by_ns_uri(&self, ns_uri: &str) -> (r: Option<&EPackage>)
        ensures
            match first_with_ns(self@, ns_uri@, 0) {
                Some(i) => r == Some(&self@[i]),
                None => r is None,
            },
    {
        let key = chars_of(ns_uri);
        let mut i: usize = 0;
        while i < self.packages.len()
            invariant
                i <= self@.len(),
                self@ == self.packages@,
                key@ == ns_uri@,
                first_with_ns(self@, ns_uri@, 0) == first_with_ns(self@, ns_uri@, i as int),
            decreases self.packages@.len() - i,
        {
            let p = &self.packages[i];
            match p.ns_uri() {
                Some(u) => {
                    let t = chars_of(u.value());
                    if chars_eq(t.as_slice(), key.as_slice()) {
                        return Some(p);
                    }
                },
                None => {},
            }
            i += 1;
        }
        None
    }
}

} // verus!

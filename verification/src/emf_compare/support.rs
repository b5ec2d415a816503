//! What the comparison engines read of the compared models, as plain values:
//! the values of features (an object, a list of objects, other data, or
//! nothing) and, per object, the objects it contains, whether it is an
//! unresolved proxy, the structural features of its class and its feature
//! values. Objects are named by their keys.
use vstd::prelude::*;
use vstd::std_specs::cmp::PartialEqSpec;

verus! {

/// A feature value.
#[derive(Debug, Clone)]
pub enum CompareValue<D> {
    /// One object, by key.
    Object(usize),
    /// A many-valued reference, by the keys of the objects it holds.
    List(Vec<usize>),
    /// Any other value.
    Data(D),
    /// No value.
    Null,
}

/// The object a value is, when it is exactly one object.
pub open spec fn single_object_of<D>(v: CompareValue<D>) -> Option<usize> {
    match v {
        CompareValue::Object(k) => Some(k),
        _ => None,
    }
}

/// The objects a value holds: itself when it is one object, its items when
/// it is a list, none otherwise.
pub open spec fn object_list_of<D>(v: CompareValue<D>) -> Seq<usize> {
    match v {
        CompareValue::Object(k) => seq![k],
        CompareValue::List(ks) => ks@,
        _ => Seq::empty(),
    }
}

/// The object a value is, when it is exactly one object.
pub fn single_object<D>(v: &CompareValue<D>) -> (r: Option<usize>)
    ensures
        r == single_object_of(*v),
{
    match v {
        CompareValue::Object(k) => Some(*k),
        _ => None,
    }
}

/// The objects a value holds.
pub fn object_list<D>(v: &CompareValue<D>) -> (r: Vec<usize>)
    ensures
        r@ == object_list_of(*v),
{
    match v {
        CompareValue::Object(k) => vec![*k],
        CompareValue::List(ks) => ks.clone(),
        _ => Vec::new(),
    }
}

/// Two values are equal: the same object, the same list of objects, equal
/// data (as the data type's `==` says), or both nothing.
pub open spec fn value_eq_spec<D: PartialEq>(a: CompareValue<D>, b: CompareValue<D>) -> bool {
    match (a, b) {
        (CompareValue::Object(x), CompareValue::Object(y)) => x == y,
        (CompareValue::List(xs), CompareValue::List(ys)) => xs@ == ys@,
        (CompareValue::Data(x), CompareValue::Data(y)) => x.eq_spec(&y),
        (CompareValue::Null, CompareValue::Null) => true,
        _ => false,
    }
}

/// Whether two lists of object keys are equal (computed).
fn keys_equal(a: &Vec<usize>, b: &Vec<usize>) -> (r: bool)
    ensures
        r == (a@ == b@),
{
    if a.len() != b.len() {
        return false;
    }
    let mut i: usize = 0;
    while i < a.len()
        invariant
            i <= a@.len(),
            a@.len() == b@.len(),
            forall|j: int| 0 <= j < i ==> a@[j] == b@[j],
        decreases a@.len() - i,
    {
        if a[i] != b[i] {
            return false;
        }
        i += 1;
    }
    assert(a@ =~= b@);
    true
}

/// Whether two values are equal; exact for data types whose `==` keeps its
/// specification.
pub fn value_equal<D: PartialEq>(a: &CompareValue<D>, b: &CompareValue<D>) -> (r: bool)
    ensures
        D::obeys_eq_spec() ==> r == value_eq_spec(*a, *b),
{
    match (a, b) {
        (CompareValue::Object(x), CompareValue::Object(y)) => *x == *y,
        (CompareValue::List(xs), CompareValue::List(ys)) => keys_equal(xs, ys),
        (CompareValue::Data(x), CompareValue::Data(y)) => x == y,
        (CompareValue::Null, CompareValue::Null) => true,
        _ => false,
    }
}

/// `b` is a copy of `a`: the same object, the same list of objects, a clone
/// of the data, or nothing.
pub open spec fn value_copy<D: Clone>(a: CompareValue<D>, b: CompareValue<D>) -> bool {
    match a {
        CompareValue::Object(x) => b == CompareValue::<D>::Object(x),
        CompareValue::List(xs) => b matches CompareValue::List(ys) && ys@ == xs@,
        CompareValue::Data(x) => b matches CompareValue::Data(y) && cloned(x, y),
        CompareValue::Null => b is Null,
    }
}

/// A copy of `v`.
pub fn copy_value<D: Clone>(v: &CompareValue<D>) -> (r: CompareValue<D>)
    ensures
        value_copy(*v, r),
{
    match v {
        CompareValue::Object(k) => CompareValue::Object(*k),
        CompareValue::List(ks) => {
            let c = ks.clone();
            assert(c@ =~= ks@);
            CompareValue::List(c)
        },
        CompareValue::Data(d) => CompareValue::Data(d.clone()),
        CompareValue::Null => CompareValue::Null,
    }
}

/// What the engines read of one structural feature of a class.
#[derive(Debug, Clone)]
pub struct FeatureFacts {
    /// The feature's name.
    pub name: String,
    /// Derived.
    pub derived: bool,
    /// Transient.
    pub transient: bool,
    /// Changeable.
    pub changeable: bool,
    /// A reference (else an attribute).
    pub reference: bool,
    /// Many-valued.
    pub many: bool,
    /// Ordered.
    pub ordered: bool,
    /// A containment reference.
    pub containment: bool,
}

/// What the engines read of one object: its key, the objects it contains
/// (in order), whether it is an unresolved proxy, the structural features of
/// its class (own and inherited, in order; none for an object without
/// reflective features) and its feature values by feature name.
#[derive(Debug, Clone)]
pub struct ObjectFacts<D> {
    /// The object's key.
    pub key: usize,
    /// Contained objects.
    pub contents: Vec<usize>,
    /// The object is an unresolved proxy.
    pub proxy: bool,
    /// The structural features of its class.
    pub features: Vec<FeatureFacts>,
    /// Feature values by feature name.
    pub values: Vec<(String, CompareValue<D>)>,
}

/// The facts recorded first for the object `k` in `g`.
pub open spec fn facts_of<D>(g: Seq<ObjectFacts<D>>, k: usize) -> Option<ObjectFacts<D>>
    decreases g.len(),
{
    if g.len() == 0 {
        None
    } else if g[0].key == k {
        Some(g[0])
    } else {
        facts_of(g.drop_first(), k)
    }
}

/// The objects `k` contains (none for an object without facts).
pub open spec fn contents_of<D>(g: Seq<ObjectFacts<D>>, k: usize) -> Seq<usize> {
    match facts_of(g, k) {
        Some(f) => f.contents@,
        None => Seq::empty(),
    }
}

/// Whether `k` is an unresolved proxy (not for an object without facts).
pub open spec fn proxy_of<D>(g: Seq<ObjectFacts<D>>, k: usize) -> bool {
    match facts_of(g, k) {
        Some(f) => f.proxy,
        None => false,
    }
}

/// The structural features of `k`'s class (none for an object without
/// facts).
pub open spec fn features_of<D>(g: Seq<ObjectFacts<D>>, k: usize) -> Seq<FeatureFacts> {
    match facts_of(g, k) {
        Some(f) => f.features@,
        None => Seq::empty(),
    }
}

/// The value recorded first under `name` in `vs`, nothing when none is.
pub open spec fn value_in<D>(vs: Seq<(String, CompareValue<D>)>, name: Seq<char>) -> CompareValue<D>
    decreases vs.len(),
{
    if vs.len() == 0 {
        CompareValue::Null
    } else if vs[0].0@ == name {
        vs[0].1
    } else {
        value_in(vs.drop_first(), name)
    }
}

/// The value of `k`'s feature `name` (nothing for an object without facts).
pub open spec fn value_of<D>(g: Seq<ObjectFacts<D>>, k: usize, name: Seq<char>) -> CompareValue<D> {
    match facts_of(g, k) {
        Some(f) => value_in(f.values@, name),
        None => CompareValue::Null,
    }
}

/// The targets of the non-containment references among the features `fs`
/// of `k`, feature by feature, in order.
pub open spec fn reference_targets<D>(g: Seq<ObjectFacts<D>>, k: usize, fs: Seq<FeatureFacts>) -> Seq<usize>
    decreases fs.len(),
{
    if fs.len() == 0 {
        Seq::empty()
    } else {
        let prev = reference_targets(g, k, fs.drop_last());
        let f = fs.last();
        if !f.reference || f.containment {
            prev
        } else if f.many {
            prev + object_list_of(value_of(g, k, f.name@))
        } else {
            match single_object_of(value_of(g, k, f.name@)) {
                Some(o) => prev.push(o),
                None => prev,
            }
        }
    }
}

/// The targets of `k`'s non-containment references.
pub open spec fn cross_references_of<D>(g: Seq<ObjectFacts<D>>, k: usize) -> Seq<usize> {
    reference_targets(g, k, features_of(g, k))
}

/// The facts recorded first for the object `k`.
pub fn find_facts<D>(g: &Vec<ObjectFacts<D>>, k: usize) -> (r: Option<&ObjectFacts<D>>)
    ensures
        match r {
            Some(f) => facts_of(g@, k) == Some(*f),
            None => facts_of(g@, k) is None,
        },
{
    let ghost s = g@;
    let mut i: usize = 0;
    assert(s.subrange(0, s.len() as int) =~= s);
    while i < g.len()
        invariant
            s == g@,
            i <= s.len(),
            facts_of(s, k) == facts_of(s.subrange(i as int, s.len() as int), k),
        decreases s.len() - i,
    {
        let ghost rest = s.subrange(i as int, s.len() as int);
        assert(rest[0] == s[i as int]);
        assert(rest.drop_first() =~= s.subrange(i + 1, s.len() as int));
        if g[i].key == k {
            return Some(&g[i]);
        }
        i += 1;
    }
    assert(s.subrange(i as int, s.len() as int).len() == 0);
    None
}

/// The objects `k` contains.
pub fn contents<D>(g: &Vec<ObjectFacts<D>>, k: usize) -> (r: Vec<usize>)
    ensures
        r@ == contents_of(g@, k),
{
    match find_facts(g, k) {
        Some(f) => f.contents.clone(),
        None => Vec::new(),
    }
}

/// Whether `k` is an unresolved proxy.
pub fn is_proxy<D>(g: &Vec<ObjectFacts<D>>, k: usize) -> (r: bool)
    ensures
        r == proxy_of(g@, k),
{
    match find_facts(g, k) {
        Some(f) => f.proxy,
        None => false,
    }
}

/// The value recorded first under `name` in `vs` (`None`: nothing).
fn find_value<'a, D>(vs: &'a Vec<(String, CompareValue<D>)>, name: &str) -> (r: Option<&'a CompareValue<D>>)
    ensures
        match r {
            Some(v) => value_in(vs@, name@) == *v,
            None => value_in(vs@, name@) is Null,
        },
{
    let ghost s = vs@;
    let mut i: usize = 0;
    assert(s.subrange(0, s.len() as int) =~= s);
    while i < vs.len()
        invariant
            s == vs@,
            i <= s.len(),
            value_in(s, name@) == value_in(s.subrange(i as int, s.len() as int), name@),
        decreases s.len() - i,
    {
        let ghost rest = s.subrange(i as int, s.len() as int);
        assert(rest[0] == s[i as int]);
        assert(rest.drop_first() =~= s.subrange(i + 1, s.len() as int));
        if crate::text::str_eq(vs[i].0.as_str(), name) {
            return Some(&vs[i].1);
        }
        i += 1;
    }
    assert(s.subrange(i as int, s.len() as int).len() == 0);
    None
}

/// The value of `k`'s feature `name` (`None`: nothing).
pub fn value_ref<'a, D>(g: &'a Vec<ObjectFacts<D>>, k: usize, name: &str) -> (r: Option<&'a CompareValue<D>>)
    ensures
        match r {
            Some(v) => value_of(g@, k, name@) == *v,
            None => value_of(g@, k, name@) is Null,
        },
{
    match find_facts(g, k) {
        Some(f) => find_value(&f.values, name),
        None => None,
    }
}

/// The targets of `k`'s non-containment references.
pub fn cross_references<D>(g: &Vec<ObjectFacts<D>>, k: usize) -> (r: Vec<usize>)
    ensures
        r@ == cross_references_of(g@, k),
{
    let mut out: Vec<usize> = Vec::new();
    match find_facts(g, k) {
        None => {},
        Some(facts) => {
            let fs = &facts.features;
            let mut i: usize = 0;
            while i < fs.len()
                invariant
                    i <= fs@.len(),
                    facts_of(g@, k) == Some(*facts),
                    fs@ == features_of(g@, k),
                    out@ == reference_targets(g@, k, fs@.subrange(0, i as int)),
                decreases fs@.len() - i,
            {
                let ghost pre = fs@.subrange(0, i + 1);
                assert(pre.drop_last() =~= fs@.subrange(0, i as int));
                let f = &fs[i];
                if f.reference && !f.containment {
                    let v = value_ref(g, k, f.name.as_str());
                    if f.many {
                        let mut items: Vec<usize> = match v {
                            Some(x) => object_list(x),
                            None => Vec::new(),
                        };
                        out.append(&mut items);
                    } else {
                        if let Some(x) = v {
                            if let Some(o) = single_object(x) {
                                out.push(o);
                            }
                        }
                    }
                }
                i += 1;
            }
            assert(fs@.subrange(0, fs@.len() as int) =~= fs@);
        },
    }
    out
}

} // verus!

//! AUTOSAR business constraints. The model-level one: every `uuid` in a
//! containment tree is non-empty and globally unique; the tree holds, per
//! object, what that constraint reads: the object's `uuid` (if it has one)
//! and its contained objects. The per-object ones read an object's features
//! by name (`shortName`, `uuid`, `category`, ECUC values and references) and
//! the targets of its non-containment references.
use vstd::prelude::*;
use crate::emf_common::diagnostic::{Diagnostic, Severity};
use crate::text::{chars_eq, chars_of, str_eq, string_of};

verus! {

/// One object of a containment tree: its `uuid`, when it has a string
/// `uuid` feature, and the objects it contains, in order.
#[derive(Debug)]
pub struct ModelNode {
    /// The object's `uuid`.
    pub uuid: Option<String>,
    /// Contained objects.
    pub children: Vec<ModelNode>,
}

/// The text of an optional `uuid`.
pub open spec fn uuid_view(u: Option<String>) -> Option<Seq<char>> {
    match u {
        Some(s) => Some(s@),
        None => None,
    }
}

/// The `uuid`s of a tree in depth-first pre-order (the object before the
/// objects it contains).
pub open spec fn preorder(n: ModelNode) -> Seq<Option<Seq<char>>>
    decreases n,
{
    seq![uuid_view(n.uuid)] + preorder_list(n.children@)
}

/// The pre-order `uuid`s of the trees `cs`, one after the other.
pub open spec fn preorder_list(cs: Seq<ModelNode>) -> Seq<Option<Seq<char>>>
    decreases cs,
{
    if cs.len() == 0 {
        Seq::empty()
    } else {
        proof {
            assert(decreases_to!(cs => cs.subrange(0, cs.len() - 1)));
        }
        preorder_list(cs.subrange(0, cs.len() - 1)) + preorder(cs[cs.len() - 1])
    }
}

/// The message for an empty `uuid`.
pub open spec fn empty_uuid_message() -> Seq<char> {
    "AUTOSAR Identifiable.uuid must not be empty"@
}

/// The message for a `uuid` already used by an earlier object.
pub open spec fn duplicate_uuid_message(u: Seq<char>) -> Seq<char> {
    "AUTOSAR Identifiable.uuid must be globally unique: duplicate uuid '"@ + u + seq!['\'']
}

/// Some object of `us` has the `uuid` `u`.
pub open spec fn uuid_seen(us: Seq<Option<Seq<char>>>, u: Seq<char>) -> bool {
    exists|i: int| 0 <= i < us.len() && us[i] == Some(u)
}

/// The messages a sweep over the `uuid`s `us` (in order) reports: one for
/// each empty `uuid`, and one for each non-empty `uuid` an earlier object
/// already has.
pub open spec fn uuid_messages(us: Seq<Option<Seq<char>>>) -> Seq<Seq<char>>
    decreases us.len(),
{
    if us.len() == 0 {
        Seq::empty()
    } else {
        let prev = uuid_messages(us.drop_last());
        match us.last() {
            None => prev,
            Some(u) => if u.len() == 0 {
                prev.push(empty_uuid_message())
            } else if uuid_seen(us.drop_last(), u) {
                prev.push(duplicate_uuid_message(u))
            } else {
                prev
            },
        }
    }
}

/// The name every report of the sweep carries as its source.
pub open spec fn uuid_source() -> Seq<char> {
    "AutosarUuidGloballyUnique"@
}

/// `d` is an error of the uniqueness sweep with message `m`.
pub open spec fn is_uuid_report(d: Diagnostic, m: Seq<char>) -> bool {
    &&& d.severity_spec() == Severity::Error
    &&& d.source_spec() == uuid_source()
    &&& d.code_spec() == 0
    &&& d.message_spec() == m
    &&& d.children_spec().len() == 0
}

/// The diagnostics `ds` are the sweep's errors with the messages `ms`.
pub open spec fn reports_match(ds: Seq<Diagnostic>, ms: Seq<Seq<char>>) -> bool {
    &&& ds.len() == ms.len()
    &&& forall|i: int| 0 <= i < ds.len() ==> is_uuid_report(#[trigger] ds[i], ms[i])
}

/// Some entry of `seen` holds the text `u`.
spec fn seen_has(seen: Seq<Vec<char>>, u: Seq<char>) -> bool {
    exists|j: int| 0 <= j < seen.len() && (#[trigger] seen[j])@ == u
}

/// `seen` holds exactly the non-empty `uuid`s of `done`.
spec fn seen_ok(seen: Seq<Vec<char>>, done: Seq<Option<Seq<char>>>) -> bool {
    forall|u: Seq<char>|
        #![trigger uuid_seen(done, u)]
        #![trigger seen_has(seen, u)]
        seen_has(seen, u) <==> (u.len() > 0 && uuid_seen(done, u))
}

/// Whether `seen` holds `u` (computed).
fn seen_holds(seen: &Vec<Vec<char>>, u: &[char]) -> (r: bool)
    ensures
        r == seen_has(seen@, u@),
{
    let mut i: usize = 0;
    while i < seen.len()
        invariant
            i <= seen@.len(),
            forall|j: int| 0 <= j < i ==> (#[trigger] seen@[j])@ != u@,
        decreases seen@.len() - i,
    {
        if chars_eq(seen[i].as_slice(), u) {
            return true;
        }
        i += 1;
    }
    false
}

/// The error the `uuid` sweep reports with message `m`.
fn uuid_report(m: &[char]) -> (r: Diagnostic)
    ensures
        is_uuid_report(r, m@),
{
    let text = string_of(m);
    Diagnostic::new(Severity::Error, "AutosarUuidGloballyUnique", 0, text.as_str())
}

/// Check one object's `uuid` against those already seen.
fn check_one(uuid: &Option<String>, seen: &mut Vec<Vec<char>>, result: &mut Vec<Diagnostic>, Ghost(done): Ghost<Seq<Option<Seq<char>>>>)
    requires
        seen_ok(old(seen)@, done),
        reports_match(old(result)@, uuid_messages(done)),
    ensures
        seen_ok(final(seen)@, done.push(uuid_view(*uuid))),
        reports_match(final(result)@, uuid_messages(done.push(uuid_view(*uuid)))),
{
    let ghost d2 = done.push(uuid_view(*uuid));
    assert(d2.drop_last() == done);
    assert(d2.last() == uuid_view(*uuid));
    match uuid {
        None => {
            assert forall|u: Seq<char>| uuid_seen(d2, u) implies uuid_seen(done, u) by {
                let i = choose|i: int| 0 <= i < d2.len() && d2[i] == Some(u);
                assert(i < done.len());
                assert(done[i] == d2[i]);
            }
            assert forall|u: Seq<char>| uuid_seen(done, u) implies uuid_seen(d2, u) by {
                let i = choose|i: int| 0 <= i < done.len() && done[i] == Some(u);
                assert(d2[i] == done[i]);
            }
            assert(seen_ok(seen@, d2)) by {
                assert forall|u: Seq<char>| #[trigger] seen_has(seen@, u) <==> (u.len() > 0
                    && uuid_seen(d2, u)) by {
                    assert(uuid_seen(d2, u) == uuid_seen(done, u));
                }
            }
        },
        Some(s) => {
            let u = chars_of(s.as_str());
            assert forall|x: Seq<char>| uuid_seen(done, x) implies uuid_seen(d2, x) by {
                let i = choose|i: int| 0 <= i < done.len() && done[i] == Some(x);
                assert(d2[i] == done[i]);
            }
            assert forall|x: Seq<char>| x != u@ && uuid_seen(d2, x) implies uuid_seen(done, x) by {
                let i = choose|i: int| 0 <= i < d2.len() && d2[i] == Some(x);
                if i < done.len() {
                    assert(done[i] == d2[i]);
                }
            }
            assert(uuid_seen(d2, u@)) by {
                assert(d2[done.len() as int] == Some(u@));
            }
            if u.len() == 0 {
                let msg: Vec<char> = chars_of("AUTOSAR Identifiable.uuid must not be empty");
                let ghost before = result@;
                result.push(uuid_report(msg.as_slice()));
                assert(uuid_messages(d2) == uuid_messages(done).push(empty_uuid_message()));
                assert forall|i: int| 0 <= i < result@.len() implies is_uuid_report(
                    #[trigger] result@[i],
                    uuid_messages(d2)[i],
                ) by {
                    if i < before.len() {
                        assert(result@[i] == before[i]);
                    }
                }
            } else if seen_holds(seen, u.as_slice()) {
                let mut msg: Vec<char> = chars_of(
                    "AUTOSAR Identifiable.uuid must be globally unique: duplicate uuid '",
                );
                let mut uc = u.clone();
                msg.append(&mut uc);
                msg.push('\'');
                assert(msg@ == duplicate_uuid_message(u@));
                let ghost before = result@;
                result.push(uuid_report(msg.as_slice()));
                assert(uuid_messages(d2) == uuid_messages(done).push(duplicate_uuid_message(u@)));
                assert forall|i: int| 0 <= i < result@.len() implies is_uuid_report(
                    #[trigger] result@[i],
                    uuid_messages(d2)[i],
                ) by {
                    if i < before.len() {
                        assert(result@[i] == before[i]);
                    }
                }
            } else {
                assert(uuid_messages(d2) == uuid_messages(done));
                let ghost before = seen@;
                seen.push(u);
                assert forall|x: Seq<char>| #[trigger] seen_has(seen@, x) implies (x.len() > 0
                    && uuid_seen(d2, x)) by {
                    let j = choose|j: int| 0 <= j < seen@.len() && (#[trigger] seen@[j])@ == x;
                    if j < before.len() {
                        assert(before[j] == seen@[j]);
                        assert(seen_has(before, x));
                        assert(uuid_seen(done, x));
                        assert(x.len() > 0);
                    }
                }
                assert forall|x: Seq<char>| (x.len() > 0 && #[trigger] uuid_seen(d2, x)) implies seen_has(
                    seen@,
                    x,
                ) by {
                    if x == u@ {
                        assert(seen@[before.len() as int]@ == x);
                    } else {
                        assert(uuid_seen(done, x));
                        assert(seen_has(before, x));
                        let j = choose|j: int| 0 <= j < before.len() && (#[trigger] before[j])@ == x;
                        assert(seen@[j] == before[j]);
                    }
                }
            }
        },
    }
}

/// Sweep the tree `node` in pre-order after the `uuid`s `done`.
fn visit(node: &ModelNode, seen: &mut Vec<Vec<char>>, result: &mut Vec<Diagnostic>, Ghost(done): Ghost<Seq<Option<Seq<char>>>>)
    requires
        seen_ok(old(seen)@, done),
        reports_match(old(result)@, uuid_messages(done)),
    ensures
        seen_ok(final(seen)@, done + preorder(*node)),
        reports_match(final(result)@, uuid_messages(done + preorder(*node))),
    decreases node,
{
    check_one(&node.uuid, seen, result, Ghost(done));
    let ghost d1 = done.push(uuid_view(node.uuid));
    let ghost cs = node.children@;
    assert(d1 + preorder_list(cs.subrange(0, 0)) == d1) by {
        assert(cs.subrange(0, 0).len() == 0);
        assert(d1 + Seq::<Option<Seq<char>>>::empty() =~= d1);
    }
    let mut k: usize = 0;
    while k < node.children.len()
        invariant
            k <= cs.len(),
            cs == node.children@,
            seen_ok(seen@, d1 + preorder_list(cs.subrange(0, k as int))),
            reports_match(result@, uuid_messages(d1 + preorder_list(cs.subrange(0, k as int)))),
        decreases cs.len() - k,
    {
        proof {
            assert(decreases_to!(node => node.children));
            assert(decreases_to!(node.children => node.children@));
            assert(decreases_to!(node.children@ => node.children@[k as int]));
        }
        let ghost before = d1 + preorder_list(cs.subrange(0, k as int));
        visit(&node.children[k], seen, result, Ghost(before));
        proof {
            let sub = cs.subrange(0, k + 1);
            assert(sub.subrange(0, sub.len() - 1) == cs.subrange(0, k as int));
            assert(sub[sub.len() - 1] == cs[k as int]);
            assert(preorder_list(sub) == preorder_list(cs.subrange(0, k as int)) + preorder(cs[k as int]));
            assert(before + preorder(cs[k as int]) =~= d1 + preorder_list(sub));
        }
        k += 1;
    }
    proof {
        assert(cs.subrange(0, cs.len() as int) == cs);
        assert(d1 + preorder_list(cs) =~= done + preorder(*node));
    }
}

/// One depth-first pre-order sweep over `root`'s containment tree reporting
/// every empty `uuid` and every repeated `uuid` (the first object with a
/// value stays silent, each later one is reported), as errors whose source
/// is `AutosarUuidGloballyUnique`.
pub fn validate_uuid_uniqueness(root: &ModelNode) -> (r: Vec<Diagnostic>)
    ensures
        reports_match(r@, uuid_messages(preorder(*root))),
{
    let mut seen: Vec<Vec<char>> = Vec::new();
    let mut result: Vec<Diagnostic> = Vec::new();
    let ghost none = Seq::<Option<Seq<char>>>::empty();
    assert(uuid_messages(none) == Seq::<Seq<char>>::empty());
    visit(root, &mut seen, &mut result, Ghost(none));
    assert(none + preorder(*root) == preorder(*root));
    result
}

/// The `uuid`s `us` hold no empty value and no non-empty value twice.
pub open spec fn uuids_valid(us: Seq<Option<Seq<char>>>) -> bool {
    &&& forall|i: int| 0 <= i < us.len() ==> (#[trigger] us[i] matches Some(u) ==> u.len() > 0)
    &&& forall|i: int, j: int| 0 <= i < j < us.len() && us[i] is Some ==> #[trigger] us[i] != #[trigger] us[j]
}

/// The sweep over the `uuid`s `us` reports nothing exactly when they hold no
/// empty value and no value twice.
pub proof fn lemma_no_reports_iff_valid(us: Seq<Option<Seq<char>>>)
    ensures
        (uuid_messages(us).len() == 0) <==> uuids_valid(us),
    decreases us.len(),
{
    if us.len() > 0 {
        let p = us.drop_last();
        lemma_no_reports_iff_valid(p);
        if uuids_valid(us) {
            assert forall|i: int| 0 <= i < p.len() implies (#[trigger] p[i] matches Some(u) ==> u.len() > 0) by {
                assert(p[i] == us[i]);
            }
            assert forall|i: int, j: int| 0 <= i < j < p.len() && p[i] is Some implies #[trigger] p[i] != #[trigger] p[j] by {
                assert(p[i] == us[i] && p[j] == us[j]);
            }
            assert(uuids_valid(p));
            match us.last() {
                None => {},
                Some(u) => {
                    assert(us[us.len() - 1] == us.last());
                    if uuid_seen(p, u) {
                        let i = choose|i: int| 0 <= i < p.len() && p[i] == Some(u);
                        assert(us[i] == p[i]);
                        assert(us[i] != us[us.len() - 1]);
                    }
                },
            }
        }
        if uuid_messages(us).len() == 0 {
            match us.last() {
                None => {},
                Some(u) => {
                    assert(u.len() > 0 && !uuid_seen(p, u));
                },
            }
            assert forall|i: int| 0 <= i < us.len() implies (#[trigger] us[i] matches Some(u) ==> u.len() > 0) by {
                if i < p.len() {
                    assert(p[i] == us[i]);
                } else {
                    assert(us[i] == us.last());
                }
            }
            assert forall|i: int, j: int| 0 <= i < j < us.len() && us[i] is Some implies #[trigger] us[i] != #[trigger] us[j] by {
                assert(p[i] == us[i]);
                if j < p.len() {
                    assert(p[j] == us[j]);
                } else {
                    assert(us[j] == us.last());
                    if us[i] == us[j] {
                        assert(uuid_seen(p, us[i]->0));
                    }
                }
            }
        }
    }
}

/// The model-level uniqueness constraint on the tree `root` (inclusive):
/// `true` when it holds no empty `uuid` and no `uuid` twice.
pub fn subtree_uuids_valid(root: &ModelNode) -> (r: bool)
    ensures
        r == uuids_valid(preorder(*root)),
{
    let reports = validate_uuid_uniqueness(root);
    proof {
        lemma_no_reports_iff_valid(preorder(*root));
    }
    reports.len() == 0
}

/// A value an object holds for one of its features, as the constraints read
/// it.
#[derive(Debug)]
pub enum FeatureValue {
    /// A string.
    Text(String),
    /// An integer.
    Int(i64),
    /// A boolean.
    Bool(bool),
    /// A single object reference.
    Object,
    /// A many-valued feature holding this many values.
    List(usize),
    /// An unset value.
    Null,
}

/// What the per-object constraints read of one object: the name of its
/// class, its feature values by feature name, and, for each target of its
/// non-containment references, whether that target is an unresolved proxy.
#[derive(Debug)]
pub struct ConstrainedObject {
    /// The name of the object's class.
    pub class_name: String,
    /// Feature values by feature name.
    pub features: Vec<(String, FeatureValue)>,
    /// One entry per non-containment reference target: whether it is an
    /// unresolved proxy.
    pub cross_reference_proxies: Vec<bool>,
}

/// The value of the feature `name` among `fs`: that of its first entry.
pub open spec fn feature_value(fs: Seq<(String, FeatureValue)>, name: Seq<char>) -> Option<FeatureValue>
    decreases fs.len(),
{
    if fs.len() == 0 {
        None
    } else if fs[0].0@ == name {
        Some(fs[0].1)
    } else {
        feature_value(fs.drop_first(), name)
    }
}

/// The text of the feature `name` of `o`, when it holds a string.
pub open spec fn feature_text(o: ConstrainedObject, name: Seq<char>) -> Option<Seq<char>> {
    match feature_value(o.features@, name) {
        Some(FeatureValue::Text(s)) => Some(s@),
        _ => None,
    }
}

/// A string feature that is present is not empty.
pub open spec fn non_empty_if_present(t: Option<Seq<char>>) -> bool {
    match t {
        Some(s) => s.len() > 0,
        None => true,
    }
}

/// The value of the feature `name` of `o`.
pub fn feature<'a>(o: &'a ConstrainedObject, name: &str) -> (r: Option<&'a FeatureValue>)
    ensures
        match r {
            Some(v) => feature_value(o.features@, name@) == Some(*v),
            None => feature_value(o.features@, name@) is None,
        },
{
    let ghost fs = o.features@;
    let mut i: usize = 0;
    assert(fs.subrange(0, fs.len() as int) =~= fs);
    while i < o.features.len()
        invariant
            fs == o.features@,
            i <= fs.len(),
            feature_value(fs, name@) == feature_value(fs.subrange(i as int, fs.len() as int), name@),
        decreases fs.len() - i,
    {
        let ghost rest = fs.subrange(i as int, fs.len() as int);
        assert(rest[0] == fs[i as int]);
        assert(rest.drop_first() =~= fs.subrange(i + 1, fs.len() as int));
        if str_eq(o.features[i].0.as_str(), name) {
            return Some(&o.features[i].1);
        }
        i += 1;
    }
    assert(fs.subrange(i as int, fs.len() as int).len() == 0);
    None
}

/// The text of the feature `name` of `o`, when it holds a string.
pub fn read_str<'a>(o: &'a ConstrainedObject, name: &str) -> (r: Option<&'a String>)
    ensures
        match r {
            Some(s) => feature_text(*o, name@) == Some(s@),
            None => feature_text(*o, name@) is None,
        },
{
    match feature(o, name) {
        Some(FeatureValue::Text(s)) => Some(s),
        _ => None,
    }
}

/// Whether a string feature that is present is not empty.
fn present_text_non_empty(t: Option<&String>) -> (r: bool)
    ensures
        r == non_empty_if_present(
            match t {
                Some(s) => Some(s@),
                None => None,
            },
        ),
{
    match t {
        Some(s) => !s.as_str().is_empty(),
        None => true,
    }
}

/// `shortName` must not be empty (an object without one is not concerned).
pub fn short_name_non_empty_eval(o: &ConstrainedObject) -> (r: bool)
    ensures
        r == non_empty_if_present(feature_text(*o, "shortName"@)),
{
    present_text_non_empty(read_str(o, "shortName"))
}

/// `uuid` must not be empty (an object without one is not concerned).
pub fn uuid_non_empty_eval(o: &ConstrainedObject) -> (r: bool)
    ensures
        r == non_empty_if_present(feature_text(*o, "uuid"@)),
{
    present_text_non_empty(read_str(o, "uuid"))
}

/// A `category` that is set to a string must not be empty.
pub fn category_required_eval(o: &ConstrainedObject) -> (r: bool)
    ensures
        r == non_empty_if_present(feature_text(*o, "category"@)),
{
    present_text_non_empty(read_str(o, "category"))
}

/// No target of a non-containment reference may be an unresolved proxy.
pub fn no_unresolved_proxy_eval(o: &ConstrainedObject) -> (r: bool)
    ensures
        r == (forall|i: int| 0 <= i < o.cross_reference_proxies@.len() ==> !#[trigger] o.cross_reference_proxies@[i]),
{
    let mut i: usize = 0;
    while i < o.cross_reference_proxies.len()
        invariant
            i <= o.cross_reference_proxies@.len(),
            forall|j: int| 0 <= j < i ==> !#[trigger] o.cross_reference_proxies@[j],
        decreases o.cross_reference_proxies@.len() - i,
    {
        if o.cross_reference_proxies[i] {
            return false;
        }
        i += 1;
    }
    true
}

/// Another object of `s` than the one at `pos`, of the same class, has the
/// `shortName` `sn`.
pub open spec fn same_class_sibling_named(s: Seq<ConstrainedObject>, pos: int, sn: Seq<char>) -> bool {
    exists|j: int|
        0 <= j < s.len() && j != pos && (#[trigger] s[j]).class_name@ == s[pos].class_name@
            && feature_text(s[j], "shortName"@) == Some(sn)
}

/// The sibling uniqueness constraint on the object at `pos` of its
/// container's contents `sibs` (`None`: the object has no container).
pub open spec fn short_name_unique_spec(sibs: Option<Seq<ConstrainedObject>>, pos: int) -> bool {
    match sibs {
        None => true,
        Some(s) => match feature_text(s[pos], "shortName"@) {
            Some(sn) => sn.len() == 0 || !same_class_sibling_named(s, pos, sn),
            None => true,
        },
    }
}

/// A non-empty `shortName` must be unique among the siblings of the same
/// class under the object's container. `siblings` is the container's
/// contents and `position` the object's place in them; an object without a
/// container is not concerned.
pub fn short_name_unique_in_parent_eval(siblings: Option<&Vec<ConstrainedObject>>, position: usize) -> (r: bool)
    requires
        siblings matches Some(s) ==> position < s@.len(),
    ensures
        r == short_name_unique_spec(
            match siblings {
                Some(s) => Some(s@),
                None => None,
            },
            position as int,
        ),
{
    match siblings {
        None => true,
        Some(s) => {
            let sn = match read_str(&s[position], "shortName") {
                Some(t) => t,
                None => {
                    return true;
                },
            };
            if sn.as_str().is_empty() {
                return true;
            }
            let my_class = &s[position].class_name;
            let mut j: usize = 0;
            while j < s.len()
                invariant
                    j <= s@.len(),
                    position < s@.len(),
                    feature_text(s@[position as int], "shortName"@) == Some(sn@),
                    sn@.len() > 0,
                    siblings == Some(s),
                    *my_class == s@[position as int].class_name,
                    forall|k: int|
                        0 <= k < j && k != position && (#[trigger] s@[k]).class_name@ == my_class@
                            ==> feature_text(s@[k], "shortName"@) != Some(sn@),
                decreases s@.len() - j,
            {
                if j != position && str_eq(s[j].class_name.as_str(), my_class.as_str()) {
                    if let Some(other) = read_str(&s[j], "shortName") {
                        if str_eq(other.as_str(), sn.as_str()) {
                            assert(same_class_sibling_named(s@, position as int, sn@));
                            return false;
                        }
                    }
                }
                j += 1;
            }
            true
        },
    }
}

/// An ECUC container value must reference its definition.
pub fn ecuc_container_value_has_definition_eval(o: &ConstrainedObject) -> (r: bool)
    ensures
        r == (feature_value(o.features@, "definition"@) == Some(FeatureValue::Object)),
{
    matches!(feature(o, "definition"), Some(FeatureValue::Object))
}

/// A textual ECUC parameter value that is set must not be empty.
pub fn ecuc_textual_param_value_non_empty_eval(o: &ConstrainedObject) -> (r: bool)
    ensures
        r == non_empty_if_present(feature_text(*o, "value"@)),
{
    present_text_non_empty(read_str(o, "value"))
}

/// An ECUC reference definition must reference its destination.
pub fn ecuc_reference_def_has_destination_eval(o: &ConstrainedObject) -> (r: bool)
    ensures
        r == (feature_value(o.features@, "destination"@) == Some(FeatureValue::Object)),
{
    matches!(feature(o, "destination"), Some(FeatureValue::Object))
}

/// An ECUC enumeration parameter definition must define a literal.
pub fn ecuc_enumeration_param_def_has_literals_eval(o: &ConstrainedObject) -> (r: bool)
    ensures
        r == (feature_value(o.features@, "literals"@) matches Some(FeatureValue::List(n)) && n > 0),
{
    match feature(o, "literals") {
        Some(FeatureValue::List(n)) => *n > 0,
        _ => false,
    }
}

/// A `symbolicName` of an ECUC parameter definition that is set must not be
/// empty.
pub fn ecuc_parameter_def_symbolic_name_non_empty_eval(o: &ConstrainedObject) -> (r: bool)
    ensures
        r == non_empty_if_present(feature_text(*o, "symbolicName"@)),
{
    present_text_non_empty(read_str(o, "symbolicName"))
}

/// When a constraint runs: on an explicit validation of the model, or live
/// on each change.
#[derive(Debug, Clone, Copy, PartialEq, Eq)]
pub enum ConstraintMode {
    /// On an explicit validation.
    Batch,
    /// On each change.
    Live,
}

/// The check a constraint runs on an object.
#[derive(Debug, Clone, Copy, PartialEq, Eq)]
pub enum ConstraintCheck {
    /// See the evaluator of that name.
    ShortNameNonEmpty,
    /// See the evaluator of that name.
    ShortNameUniqueInParent,
    /// See the evaluator of that name.
    UuidNonEmpty,
    /// See the evaluator of that name.
    CategoryRequired,
    /// See the evaluator of that name.
    NoUnresolvedProxy,
    /// See the evaluator of that name.
    UuidGloballyUnique,
    /// See the evaluator of that name.
    EcucContainerValueHasDefinition,
    /// See the evaluator of that name.
    EcucNumericalParamValueWithinLimits,
    /// See the evaluator of that name.
    EcucTextualParamValueNonEmpty,
    /// See the evaluator of that name.
    EcucDefinitionElementMultiplicity,
    /// See the evaluator of that name.
    EcucReferenceDefHasDestination,
    /// See the evaluator of that name.
    EcucEnumerationParamDefHasLiterals,
    /// See the evaluator of that name.
    EcucParameterDefSymbolicNameNonEmpty,
}

/// A registered constraint: its id, name, message, severity and mode, the
/// class name an object must have for it to apply (`None`: every object),
/// and its check.
#[derive(Debug, Clone)]
pub struct ConstraintSpec {
    pub id: String,
    pub name: String,
    pub message: String,
    pub severity: Severity,
    pub mode: ConstraintMode,
    pub target: Option<String>,
    pub check: ConstraintCheck,
}

/// A registered constraint as text.
pub struct ConstraintModel {
    pub id: Seq<char>,
    pub name: Seq<char>,
    pub message: Seq<char>,
    pub severity: Severity,
    pub mode: ConstraintMode,
    pub target: Option<Seq<char>>,
    pub check: ConstraintCheck,
}

/// A constraint model with the given parts.
pub open spec fn model_of(
    id: Seq<char>,
    name: Seq<char>,
    message: Seq<char>,
    severity: Severity,
    mode: ConstraintMode,
    target: Option<Seq<char>>,
    check: ConstraintCheck,
) -> ConstraintModel {
    ConstraintModel { id, name, message, severity, mode, target, check }
}

/// A constraint as text.
pub open spec fn constraint_model(c: ConstraintSpec) -> ConstraintModel {
    model_of(
        c.id@,
        c.name@,
        c.message@,
        c.severity,
        c.mode,
        match c.target {
            Some(t) => Some(t@),
            None => None,
        },
        c.check,
    )
}

/// Constraints as text.
pub open spec fn constraint_models(cs: Seq<ConstraintSpec>) -> Seq<ConstraintModel> {
    cs.map_values(|c: ConstraintSpec| constraint_model(c))
}

/// A constraint with the given parts (computed).
fn constraint(
    id: &str,
    name: &str,
    message: &str,
    severity: Severity,
    mode: ConstraintMode,
    target: Option<&str>,
    check: ConstraintCheck,
) -> (r: ConstraintSpec)
    ensures
        constraint_model(r) == model_of(id@, name@, message@, severity, mode, match target {
            Some(t) => Some(t@),
            None => None,
        }, check),
{
    ConstraintSpec {
        id: id.to_owned(),
        name: name.to_owned(),
        message: message.to_owned(),
        severity,
        mode,
        target: match target {
            Some(t) => Some(t.to_owned()),
            None => None,
        },
        check,
    }
}

/// The core AUTOSAR constraints, in the order they are registered: the
/// `shortName` and `uuid` presence checks and the unresolved-proxy check in
/// batch and live mode, the sibling uniqueness, `category` and global `uuid`
/// uniqueness checks in batch mode.
pub open spec fn autosar_constraint_table() -> Seq<ConstraintModel> {
    seq![
        model_of("autosar.short_name_non_empty"@, "AutosarShortNameNonEmpty"@, "AUTOSAR Referrable.shortName must not be empty"@, Severity::Error, ConstraintMode::Batch, None, ConstraintCheck::ShortNameNonEmpty),
        model_of("autosar.short_name_non_empty.live"@, "AutosarShortNameNonEmpty"@, "AUTOSAR Referrable.shortName must not be empty"@, Severity::Error, ConstraintMode::Live, None, ConstraintCheck::ShortNameNonEmpty),
        model_of("autosar.short_name_unique_in_parent"@, "AutosarShortNameUniqueInParent"@, "AUTOSAR shortName must be unique among siblings of the same type within a parent"@, Severity::Error, ConstraintMode::Batch, None, ConstraintCheck::ShortNameUniqueInParent),
        model_of("autosar.uuid_non_empty"@, "AutosarUuidNonEmpty"@, "AUTOSAR Identifiable.uuid must not be empty"@, Severity::Error, ConstraintMode::Batch, None, ConstraintCheck::UuidNonEmpty),
        model_of("autosar.uuid_non_empty.live"@, "AutosarUuidNonEmpty"@, "AUTOSAR Identifiable.uuid must not be empty"@, Severity::Error, ConstraintMode::Live, None, ConstraintCheck::UuidNonEmpty),
        model_of("autosar.category_required"@, "AutosarCategoryRequired"@, "AUTOSAR category (lowerBound>=1) must not be empty"@, Severity::Error, ConstraintMode::Batch, None, ConstraintCheck::CategoryRequired),
        model_of("autosar.no_unresolved_proxy"@, "AutosarNoUnresolvedProxy"@, "AUTOSAR cross-resource references must be resolved (no dangling proxy)"@, Severity::Warning, ConstraintMode::Batch, None, ConstraintCheck::NoUnresolvedProxy),
        model_of("autosar.no_unresolved_proxy.live"@, "AutosarNoUnresolvedProxy"@, "AUTOSAR cross-resource references must be resolved (no dangling proxy)"@, Severity::Warning, ConstraintMode::Live, None, ConstraintCheck::NoUnresolvedProxy),
        model_of("autosar.uuid_globally_unique"@, "AutosarUuidGloballyUnique"@, "AUTOSAR Identifiable.uuid must be globally unique"@, Severity::Error, ConstraintMode::Batch, None, ConstraintCheck::UuidGloballyUnique),
    ]
}

/// The ECUC constraints, in the order they are registered, each in batch
/// mode and scoped to objects of its target class.
pub open spec fn ecuc_constraint_table() -> Seq<ConstraintModel> {
    seq![
        model_of("autosar.ecuc.g_container_basic"@, "GContainerBasicConstraint"@, "EcucContainerValue must reference a valid ContainerDef definition"@, Severity::Error, ConstraintMode::Batch, Some("EcucContainerValue"@), ConstraintCheck::EcucContainerValueHasDefinition),
        model_of("autosar.ecuc.numerical_param_value_basic"@, "EcucNumericalParamValueBasicConstraint"@, "EcucNumericalParamValue value must be within ParameterDef lower/upper limits"@, Severity::Error, ConstraintMode::Batch, Some("EcucNumericalParamValue"@), ConstraintCheck::EcucNumericalParamValueWithinLimits),
        model_of("autosar.ecuc.textual_param_value_basic"@, "EcucTextualParamValueBasicConstraint"@, "EcucTextualParamValue value must not be empty"@, Severity::Error, ConstraintMode::Batch, Some("EcucTextualParamValue"@), ConstraintCheck::EcucTextualParamValueNonEmpty),
        model_of("autosar.ecuc.g_param_conf_multiplicity_basic"@, "GParamConfMultiplicityBasicConstraint"@, "EcucDefinitionElement lowerMultiplicity must be a non-negative value"@, Severity::Error, ConstraintMode::Batch, Some("EcucDefinitionElement"@), ConstraintCheck::EcucDefinitionElementMultiplicity),
        model_of("autosar.ecuc.g_reference_def_basic"@, "GReferenceDefBasicConstraint"@, "EcucReferenceDef must reference a valid destination"@, Severity::Error, ConstraintMode::Batch, Some("EcucReferenceDef"@), ConstraintCheck::EcucReferenceDefHasDestination),
        model_of("autosar.ecuc.g_enumeration_param_def_enumeration_literal"@, "GEnumerationParamDefEnumerationLiteralConstraint"@, "EcucEnumerationParamDef must define at least one literal"@, Severity::Warning, ConstraintMode::Batch, Some("EcucEnumerationParamDef"@), ConstraintCheck::EcucEnumerationParamDefHasLiterals),
        model_of("autosar.ecuc.g_config_parameter_symbolic_name_value"@, "GConfigParameterSymbolicNameValueConstraint"@, "EcucParameterDef symbolicName must not be empty when present"@, Severity::Error, ConstraintMode::Batch, Some("EcucParameterDef"@), ConstraintCheck::EcucParameterDefSymbolicNameNonEmpty),
    ]
}

/// The core AUTOSAR constraints to register with a validator.
pub fn register_autosar_constraints() -> (r: Vec<ConstraintSpec>)
    ensures
        constraint_models(r@) == autosar_constraint_table(),
{
    let mut r: Vec<ConstraintSpec> = Vec::new();
    r.push(constraint("autosar.short_name_non_empty", "AutosarShortNameNonEmpty", "AUTOSAR Referrable.shortName must not be empty", Severity::Error, ConstraintMode::Batch, None, ConstraintCheck::ShortNameNonEmpty));
    r.push(constraint("autosar.short_name_non_empty.live", "AutosarShortNameNonEmpty", "AUTOSAR Referrable.shortName must not be empty", Severity::Error, ConstraintMode::Live, None, ConstraintCheck::ShortNameNonEmpty));
    r.push(constraint("autosar.short_name_unique_in_parent", "AutosarShortNameUniqueInParent", "AUTOSAR shortName must be unique among siblings of the same type within a parent", Severity::Error, ConstraintMode::Batch, None, ConstraintCheck::ShortNameUniqueInParent));
    r.push(constraint("autosar.uuid_non_empty", "AutosarUuidNonEmpty", "AUTOSAR Identifiable.uuid must not be empty", Severity::Error, ConstraintMode::Batch, None, ConstraintCheck::UuidNonEmpty));
    r.push(constraint("autosar.uuid_non_empty.live", "AutosarUuidNonEmpty", "AUTOSAR Identifiable.uuid must not be empty", Severity::Error, ConstraintMode::Live, None, ConstraintCheck::UuidNonEmpty));
    r.push(constraint("autosar.category_required", "AutosarCategoryRequired", "AUTOSAR category (lowerBound>=1) must not be empty", Severity::Error, ConstraintMode::Batch, None, ConstraintCheck::CategoryRequired));
    r.push(constraint("autosar.no_unresolved_proxy", "AutosarNoUnresolvedProxy", "AUTOSAR cross-resource references must be resolved (no dangling proxy)", Severity::Warning, ConstraintMode::Batch, None, ConstraintCheck::NoUnresolvedProxy));
    r.push(constraint("autosar.no_unresolved_proxy.live", "AutosarNoUnresolvedProxy", "AUTOSAR cross-resource references must be resolved (no dangling proxy)", Severity::Warning, ConstraintMode::Live, None, ConstraintCheck::NoUnresolvedProxy));
    r.push(constraint("autosar.uuid_globally_unique", "AutosarUuidGloballyUnique", "AUTOSAR Identifiable.uuid must be globally unique", Severity::Error, ConstraintMode::Batch, None, ConstraintCheck::UuidGloballyUnique));
    assert(constraint_models(r@) =~= autosar_constraint_table());
    r
}

/// The ECUC constraints to register with a validator.
pub fn register_ecuc_constraints() -> (r: Vec<ConstraintSpec>)
    ensures
        constraint_models(r@) == ecuc_constraint_table(),
{
    let mut r: Vec<ConstraintSpec> = Vec::new();
    r.push(constraint("autosar.ecuc.g_container_basic", "GContainerBasicConstraint", "EcucContainerValue must reference a valid ContainerDef definition", Severity::Error, ConstraintMode::Batch, Some("EcucContainerValue"), ConstraintCheck::EcucContainerValueHasDefinition));
    r.push(constraint("autosar.ecuc.numerical_param_value_basic", "EcucNumericalParamValueBasicConstraint", "EcucNumericalParamValue value must be within ParameterDef lower/upper limits", Severity::Error, ConstraintMode::Batch, Some("EcucNumericalParamValue"), ConstraintCheck::EcucNumericalParamValueWithinLimits));
    r.push(constraint("autosar.ecuc.textual_param_value_basic", "EcucTextualParamValueBasicConstraint", "EcucTextualParamValue value must not be empty", Severity::Error, ConstraintMode::Batch, Some("EcucTextualParamValue"), ConstraintCheck::EcucTextualParamValueNonEmpty));
    r.push(constraint("autosar.ecuc.g_param_conf_multiplicity_basic", "GParamConfMultiplicityBasicConstraint", "EcucDefinitionElement lowerMultiplicity must be a non-negative value", Severity::Error, ConstraintMode::Batch, Some("EcucDefinitionElement"), ConstraintCheck::EcucDefinitionElementMultiplicity));
    r.push(constraint("autosar.ecuc.g_reference_def_basic", "GReferenceDefBasicConstraint", "EcucReferenceDef must reference a valid destination", Severity::Error, ConstraintMode::Batch, Some("EcucReferenceDef"), ConstraintCheck::EcucReferenceDefHasDestination));
    r.push(constraint("autosar.ecuc.g_enumeration_param_def_enumeration_literal", "GEnumerationParamDefEnumerationLiteralConstraint", "EcucEnumerationParamDef must define at least one literal", Severity::Warning, ConstraintMode::Batch, Some("EcucEnumerationParamDef"), ConstraintCheck::EcucEnumerationParamDefHasLiterals));
    r.push(constraint("autosar.ecuc.g_config_parameter_symbolic_name_value", "GConfigParameterSymbolicNameValueConstraint", "EcucParameterDef symbolicName must not be empty when present", Severity::Error, ConstraintMode::Batch, Some("EcucParameterDef"), ConstraintCheck::EcucParameterDefSymbolicNameNonEmpty));
    assert(constraint_models(r@) =~= ecuc_constraint_table());
    r
}

} // verus!

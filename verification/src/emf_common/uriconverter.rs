//! URI conversion (EMF `URIConverter` / `URIHandler`): a logical-to-physical
//! URI map applied by `normalize`, and a handler that resolves and
//! deresolves URIs against a base URI.
//!
//! The map is an association list from the text of a logical URI to the text
//! of its physical URI; the first entry for a key is the one that counts and
//! `map_uri` keeps keys unique.
use vstd::prelude::*;
use crate::emf_common::uri::{
    Uri, UriView, display, file_uri_spec, has_relative_path_spec, is_relative_spec, parse_refused,
    parse_spec, resolve_spec, deresolve_spec,
};
use crate::text::{chars_eq, chars_of};

verus! {

/// Index of the first entry of `m` whose logical text is `key`.
pub open spec fn first_key_index(m: Seq<(String, String)>, key: Seq<char>) -> Option<int>
    decreases m.len(),
{
    if m.len() == 0 {
        None
    } else {
        match first_key_index(m.drop_last(), key) {
            Some(i) => Some(i),
            None => if m.last().0@ == key {
                Some(m.len() - 1)
            } else {
                None
            },
        }
    }
}

/// The physical text mapped to `key`: the value of its first entry.
pub open spec fn map_lookup(m: Seq<(String, String)>, key: Seq<char>) -> Option<Seq<char>> {
    match first_key_index(m, key) {
        Some(i) => Some(m[i].1@),
        None => None,
    }
}

/// `first_key_index` finds the first entry with the key, and none before it.
pub proof fn lemma_first_key_index(m: Seq<(String, String)>, key: Seq<char>)
    ensures
        match first_key_index(m, key) {
            Some(i) => 0 <= i < m.len() && m[i].0@ == key && forall|j: int|
                0 <= j < i ==> m[j].0@ != key,
            None => forall|j: int| 0 <= j < m.len() ==> m[j].0@ != key,
        },
    decreases m.len(),
{
    if m.len() > 0 {
        let p = m.drop_last();
        lemma_first_key_index(p, key);
        assert forall|j: int| 0 <= j < p.len() implies p[j] == m[j] by {}
        match first_key_index(p, key) {
            Some(i) => {
                assert(m[i] == p[i]);
            },
            None => {
                assert forall|j: int| 0 <= j < m.len() - 1 implies m[j].0@ != key by {
                    assert(p[j] == m[j]);
                }
            },
        }
    }
}

/// Entries whose logical texts agree position by position have the same
/// first index for every key.
proof fn lemma_same_keys(a: Seq<(String, String)>, b: Seq<(String, String)>, key: Seq<char>)
    requires
        a.len() == b.len(),
        forall|j: int| 0 <= j < a.len() ==> a[j].0@ == b[j].0@,
    ensures
        first_key_index(a, key) == first_key_index(b, key),
{
    lemma_first_key_index(a, key);
    lemma_first_key_index(b, key);
    match first_key_index(a, key) {
        Some(i) => {
            match first_key_index(b, key) {
                Some(k) => {
                    if i < k {
                        assert(b[i].0@ == key);
                    } else if k < i {
                        assert(a[k].0@ == key);
                    }
                },
                None => {
                    assert(b[i].0@ == key);
                },
            }
        },
        None => {
            match first_key_index(b, key) {
                Some(k) => {
                    assert(a[k].0@ == key);
                },
                None => {},
            }
        },
    }
}

/// Pushing an entry for an absent key: that key now maps to the pushed value,
/// the others as before.
proof fn lemma_push_absent(m: Seq<(String, String)>, e: (String, String), other: Seq<char>)
    requires
        first_key_index(m, e.0@) is None,
    ensures
        map_lookup(m.push(e), e.0@) == Some(e.1@),
        other != e.0@ ==> map_lookup(m.push(e), other) == map_lookup(m, other),
{
    let t = m.push(e);
    assert(t.drop_last() == m);
    lemma_first_key_index(m, other);
    if let Some(i) = first_key_index(m, other) {
        assert(t[i] == m[i]);
    }
}

/// The physical URI that `uri`'s text maps to, if any, can be parsed.
pub open spec fn normalizable_spec(m: Seq<(String, String)>, uri: UriView) -> bool {
    match map_lookup(m, display(uri)) {
        Some(v) => !parse_refused(v),
        None => true,
    }
}

/// What `normalize_in` gives for `uri`.
pub open spec fn normalize_spec(
    m: Seq<(String, String)>,
    uri: UriView,
    cwd: Option<Seq<char>>,
) -> UriView {
    let u = match map_lookup(m, display(uri)) {
        Some(v) => parse_spec(v),
        None => uri,
    };
    if (is_relative_spec(u) || (u.path.len() > 0 && u.path[0] != '/')) && has_relative_path_spec(
        u.path,
    ) {
        file_uri_spec(u.path, cwd)
    } else {
        u
    }
}

/// Converts / normalizes URIs.
pub struct UriConverter {
    uri_map: Vec<(String, String)>,
}

impl View for UriConverter {
    type V = Seq<(String, String)>;

    closed spec fn view(&self) -> Seq<(String, String)> {
        self.uri_map@
    }
}

/// `map_lookup` (computed): the index of the first entry for `key`.
fn lookup_index(m: &Vec<(String, String)>, key: &[char]) -> (r: Option<usize>)
    ensures
        match r {
            Some(i) => first_key_index(m@, key@) == Some(i as int) && i < m@.len(),
            None => first_key_index(m@, key@) is None,
        },
{
    let mut i: usize = 0;
    while i < m.len()
        invariant
            i <= m@.len(),
            forall|j: int| 0 <= j < i ==> m@[j].0@ != key@,
        decreases m@.len() - i,
    {
        let k = chars_of(m[i].0.as_str());
        if chars_eq(k.as_slice(), key) {
            proof {
                lemma_first_key_index(m@, key@);
            }
            return Some(i);
        }
        i += 1;
    }
    proof {
        lemma_first_key_index(m@, key@);
    }
    None
}

impl UriConverter {
    /// New converter with an empty map.
    pub fn new() -> (r: Self)
        ensures
            r@ == Seq::<(String, String)>::empty(),
    {
        UriConverter { uri_map: Vec::new() }
    }

    /// The logical -> physical URI map.
    pub fn uri_map(&self) -> (r: &[(String, String)])
        ensures
            r@ == self@,
    {
        self.uri_map.as_slice()
    }

    /// The logical -> physical URI map, for changing it.
    pub fn uri_map_mut(&mut self) -> (r: &mut Vec<(String, String)>)
        ensures
            r@ == old(self)@,
            final(self)@ == final(r)@,
    {
        &mut self.uri_map
    }

    /// Map the logical URI text `logical` to `physical`, replacing an earlier
    /// mapping of the same text.
    pub fn map_uri(&mut self, logical: &str, physical: &str)
        ensures
            map_lookup(final(self)@, logical@) == Some(physical@),
            forall|k: Seq<char>| k != logical@ ==> map_lookup(final(self)@, k) == map_lookup(old(self)@, k),
    {
        let key = chars_of(logical);
        match lookup_index(&self.uri_map, key.as_slice()) {
            Some(i) => {
                let (k, _) = self.uri_map.remove(i);
                let v = physical.to_owned();
                self.uri_map.insert(i, (k, v));
                proof {
                    let m0 = old(self)@;
                    let m1 = self.uri_map@;
                    assert(m1 == m0.update(i as int, (m0[i as int].0, v)));
                    assert forall|k2: Seq<char>| #[trigger] first_key_index(m1, k2) == first_key_index(m0, k2) by {
                        lemma_same_keys(m1, m0, k2);
                    }
                    lemma_first_key_index(m0, logical@);
                    assert forall|k2: Seq<char>| k2 != logical@ implies map_lookup(m1, k2) == map_lookup(m0, k2) by {
                        lemma_same_keys(m1, m0, k2);
                        lemma_first_key_index(m0, k2);
                        if let Some(j) = first_key_index(m0, k2) {
                            assert(j != i);
                        }
                    }
                }
            },
            None => {
                let e = (logical.to_owned(), physical.to_owned());
                self.uri_map.push(e);
                proof {
                    assert forall|k2: Seq<char>| k2 != logical@ implies map_lookup(self.uri_map@, k2) == map_lookup(old(self)@, k2) by {
                        lemma_push_absent(old(self)@, e, k2);
                    }
                    lemma_push_absent(old(self)@, e, logical@);
                }
            },
        }
    }

    /// Normalize `uri`: apply the map to its text, then give a relative URI
    /// whose path holds `.` or `..` segments an explicit `file:` form (see
    /// `Uri::create_file_uri_in`, with the working directory `cwd`).
    pub fn normalize_in(&self, uri: &Uri, cwd: Option<&str>) -> (r: Uri)
        requires
            normalizable_spec(self@, uri@),
        ensures
            r@ == normalize_spec(self@, uri@, match cwd {
                Some(c) => Some(c@),
                None => None,
            }),
    {
        let text = uri.to_string();
        let key = chars_of(text.as_str());
        let u = match lookup_index(&self.uri_map, key.as_slice()) {
            Some(i) => Uri::parse(self.uri_map[i].1.as_str()),
            None => uri.copy(),
        };
        if (u.is_relative() || u.path_is_relative()) && u.has_relative_path() {
            Uri::create_file_uri_in(u.path(), cwd)
        } else {
            u
        }
    }

    /// Whether `normalize` can work on `uri`: the physical URI its text maps
    /// to, if any, can be parsed.
    pub fn normalizable(&self, uri: &Uri) -> (r: bool)
        ensures
            r == normalizable_spec(self@, uri@),
    {
        let text = uri.to_string();
        let key = chars_of(text.as_str());
        match lookup_index(&self.uri_map, key.as_slice()) {
            Some(i) => Uri::parse_accepted(self.uri_map[i].1.as_str()),
            None => true,
        }
    }

    /// Normalize `uri` without a working directory (relative paths stay
    /// relative); see `normalize_in`.
    pub fn normalize(&self, uri: &Uri) -> (r: Uri)
        requires
            normalizable_spec(self@, uri@),
        ensures
            r@ == normalize_spec(self@, uri@, None),
    {
        self.normalize_in(uri, None)
    }

    /// Resolve a relative URI against a base URI.
    pub fn resolve(&self, uri: &Uri, base: &Uri) -> (r: Uri)
        ensures
            r@ == resolve_spec(uri@, base@),
    {
        uri.resolve(base)
    }

    /// Deresolve an absolute URI relative to a base.
    pub fn deresolve(&self, uri: &Uri, base: &Uri) -> (r: Uri)
        ensures
            r@ == deresolve_spec(uri@, base@),
    {
        uri.deresolve(base)
    }
}

impl Default for UriConverter {
    fn default() -> (r: Self)
        ensures
            r@ == Seq::<(String, String)>::empty(),
    {
        Self::new()
    }
}

/// What `UriHandler::resolve` gives for `uri` with base `base`.
pub open spec fn handler_resolve_spec(base: Option<UriView>, uri: UriView) -> UriView {
    match base {
        Some(b) => if !(b.scheme.len() == 0 && b.path.len() == 0 && b.opaque.len() == 0)
            && !is_relative_spec(b) && is_relative_spec(uri) && has_relative_path_spec(uri.path) {
            resolve_spec(uri, b)
        } else {
            uri
        },
        None => uri,
    }
}

/// What `UriHandler::deresolve` gives for `uri` with base `base`.
pub open spec fn handler_deresolve_spec(base: Option<UriView>, uri: UriView) -> UriView {
    match base {
        Some(b) => if !(b.scheme.len() == 0 && b.path.len() == 0 && b.opaque.len() == 0)
            && !is_relative_spec(b) && !is_relative_spec(uri) && has_relative_path_spec(
            deresolve_spec(uri, b).path,
        ) {
            deresolve_spec(uri, b)
        } else {
            uri
        },
        None => uri,
    }
}

/// A URI handler bound to a base URI, used when serializing references.
pub struct UriHandler {
    base_uri: Option<Uri>,
}

impl UriHandler {
    /// The base URI, if set.
    pub closed spec fn base_spec(&self) -> Option<UriView> {
        match self.base_uri {
            Some(u) => Some(u@),
            None => None,
        }
    }

    /// New handler without a base URI.
    pub fn new() -> (r: Self)
        ensures
            r.base_spec() is None,
    {
        UriHandler { base_uri: None }
    }

    /// Set the base URI.
    pub fn set_base_uri(&mut self, uri: Uri)
        ensures
            final(self).base_spec() == Some(uri@),
    {
        self.base_uri = Some(uri);
    }

    /// The base URI.
    pub fn base_uri(&self) -> (r: Option<&Uri>)
        ensures
            match r {
                Some(u) => self.base_spec() == Some(u@),
                None => self.base_spec() is None,
            },
    {
        match &self.base_uri {
            Some(u) => Some(u),
            None => None,
        }
    }

    /// Resolve a relative URI whose path holds `.` or `..` segments against
    /// the (non-empty, absolute) base; any other URI is returned as it is.
    pub fn resolve(&self, uri: &Uri) -> (r: Uri)
        ensures
            r@ == handler_resolve_spec(self.base_spec(), uri@),
    {
        match &self.base_uri {
            Some(base) => {
                if !base.is_empty() && !base.is_relative() && uri.is_relative()
                    && uri.has_relative_path() {
                    return uri.resolve(base);
                }
                uri.copy()
            },
            None => uri.copy(),
        }
    }

    /// Deresolve an absolute URI against the (non-empty, absolute) base when
    /// that gives a path with `.` or `..` segments; otherwise the URI is
    /// returned as it is.
    pub fn deresolve(&self, uri: &Uri) -> (r: Uri)
        ensures
            r@ == handler_deresolve_spec(self.base_spec(), uri@),
    {
        match &self.base_uri {
            Some(base) => {
                if !base.is_empty() && !base.is_relative() && !uri.is_relative() {
                    let d = uri.deresolve(base);
                    if d.has_relative_path() {
                        return d;
                    }
                }
                uri.copy()
            },
            None => uri.copy(),
        }
    }
}

impl Default for UriHandler {
    fn default() -> (r: Self)
        ensures
            r.base_spec() is None,
    {
        Self::new()
    }
}

} // verus!

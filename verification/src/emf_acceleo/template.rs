//! Template model (declarations, parameters, template files) and the runtime
//! value context that binds variable names to text while rendering.
use vstd::prelude::*;
use crate::text::{
    chars_eq, chars_lt, chars_of, find, find_in, is_alphanumeric, lemma_find, lemma_seq_lt_irreflexive,
    lemma_seq_lt_total, lemma_seq_lt_transitive, seq_lt, slice_chars, string_of, trim, trim_chars,
    alphanumeric,
};

verus! {

/// Visibility modifier of a template or query declaration.
#[derive(Debug, Clone, Copy, PartialEq, Eq)]
pub enum Visibility {
    /// `public`: importable / callable from other files.
    Public,
    /// `private`: only usable within the declaring file.
    Private,
    /// `protected`: usable in the declaring file and sub-files.
    Protected,
}

impl Visibility {
    /// Whether the element may be referenced outside its own file.
    pub fn is_public(self) -> (r: bool)
        ensures
            r == (self == Visibility::Public),
    {
        match self {
            Visibility::Public => true,
            _ => false,
        }
    }
}

impl Default for Visibility {
    fn default() -> (r: Self)
        ensures
            r == Visibility::Public,
    {
        Visibility::Public
    }
}

/// Declaration kind: a callable `template` or a side-effect-free `query`.
#[derive(Debug, Clone, Copy, PartialEq, Eq)]
pub enum DeclKind {
    /// `[template ...[/template]]`.
    Template,
    /// `[query .../]`.
    Query,
}

/// A single formal parameter of a template or query.
#[derive(Debug, Clone, PartialEq, Eq)]
pub struct TemplateParam {
    /// Parameter name.
    pub name: String,
    /// Declared type, e.g. `EClass` or `::mm::Book`.
    pub ty: String,
}

/// The text of a parameter: its name and its type.
pub struct ParamModel {
    /// Parameter name.
    pub name: Seq<char>,
    /// Declared type.
    pub ty: Seq<char>,
}

impl View for TemplateParam {
    type V = ParamModel;

    open spec fn view(&self) -> ParamModel {
        ParamModel { name: self.name@, ty: self.ty@ }
    }
}

impl TemplateParam {
    /// A parameter named `name` of type `ty`.
    pub fn new(name: &str, ty: &str) -> (r: Self)
        ensures
            r@ == (ParamModel { name: name@, ty: ty@ }),
    {
        TemplateParam { name: name.to_owned(), ty: ty.to_owned() }
    }
}

/// A template or query declaration.
#[derive(Debug, Clone, PartialEq, Eq)]
pub struct TemplateDecl {
    /// Kind of the declaration.
    pub kind: DeclKind,
    /// Simple name.
    pub name: String,
    /// Visibility modifier.
    pub visibility: Visibility,
    /// Formal parameters.
    pub params: Vec<TemplateParam>,
    /// Raw body (for templates; queries keep the expression).
    pub body: String,
    /// One-based line of the declaration header.
    pub line: usize,
}

/// The content of a declaration.
pub struct DeclModel {
    /// Kind of the declaration.
    pub kind: DeclKind,
    /// Simple name.
    pub name: Seq<char>,
    /// Visibility modifier.
    pub visibility: Visibility,
    /// Formal parameters.
    pub params: Seq<ParamModel>,
    /// Raw body.
    pub body: Seq<char>,
    /// One-based line of the declaration header.
    pub line: nat,
}

impl View for TemplateDecl {
    type V = DeclModel;

    open spec fn view(&self) -> DeclModel {
        DeclModel {
            kind: self.kind,
            name: self.name@,
            visibility: self.visibility,
            params: self.params@.map_values(|p: TemplateParam| p@),
            body: self.body@,
            line: self.line as nat,
        }
    }
}

impl TemplateDecl {
    /// Whether the declaration exposes a public entry point.
    pub fn is_public(&self) -> (r: bool)
        ensures
            r == (self.visibility == Visibility::Public),
    {
        self.visibility.is_public()
    }
}

/// A declaration is an entry point: public and without parameters.
pub open spec fn is_entry(d: DeclModel) -> bool {
    d.visibility == Visibility::Public && d.params.len() == 0
}

/// The entry points among `ds`, in order.
pub open spec fn entries(ds: Seq<DeclModel>) -> Seq<DeclModel>
    decreases ds.len(),
{
    if ds.len() == 0 {
        Seq::empty()
    } else if is_entry(ds.last()) {
        entries(ds.drop_last()).push(ds.last())
    } else {
        entries(ds.drop_last())
    }
}

/// Position of the first declaration of `ds` named `name`, looking from
/// position `i` on.
pub open spec fn find_decl_from(ds: Seq<DeclModel>, name: Seq<char>, i: int) -> Option<int>
    decreases ds.len() - i,
{
    if i < 0 || i >= ds.len() {
        None
    } else if ds[i].name == name {
        Some(i)
    } else {
        find_decl_from(ds, name, i + 1)
    }
}

/// Position of the first declaration of `ds` named `name`.
pub open spec fn find_decl(ds: Seq<DeclModel>, name: Seq<char>) -> Option<int> {
    find_decl_from(ds, name, 0)
}

/// A parsed `.mtl` file.
#[derive(Debug, Clone, PartialEq, Eq)]
pub struct TemplateFile {
    /// All declarations, in source order.
    pub declarations: Vec<TemplateDecl>,
}

impl View for TemplateFile {
    type V = Seq<DeclModel>;

    open spec fn view(&self) -> Seq<DeclModel> {
        self.declarations@.map_values(|d: TemplateDecl| d@)
    }
}

impl Default for TemplateFile {
    fn default() -> (r: Self)
        ensures
            r@ == Seq::<DeclModel>::empty(),
    {
        TemplateFile { declarations: Vec::new() }
    }
}

impl TemplateFile {
    /// The first declaration named `name`.
    pub fn get(&self, name: &str) -> (r: Option<&TemplateDecl>)
        ensures
            match find_decl(self@, name@) {
                Some(i) => r matches Some(d) && d@ == self@[i],
                None => r is None,
            },
    {
        let key = crate::text::chars_of(name);
        let mut i: usize = 0;
        while i < self.declarations.len()
            invariant
                i <= self@.len(),
                self@.len() == self.declarations@.len(),
                key@ == name@,
                find_decl(self@, name@) == find_decl_from(self@, name@, i as int),
            decreases self.declarations@.len() - i,
        {
            let d = &self.declarations[i];
            let dn = crate::text::chars_of(d.name.as_str());
            if crate::text::chars_eq(dn.as_slice(), key.as_slice()) {
                return Some(d);
            }
            i += 1;
        }
        None
    }

    /// Public declarations with no parameters: the entry points, in order.
    pub fn entry_points(&self) -> (r: Vec<&TemplateDecl>)
        ensures
            r@.map_values(|d: &TemplateDecl| d@) == entries(self@),
    {
        let mut out: Vec<&TemplateDecl> = Vec::new();
        let mut i: usize = 0;
        while i < self.declarations.len()
            invariant
                i <= self@.len(),
                self@.len() == self.declarations@.len(),
                out@.map_values(|d: &TemplateDecl| d@) == entries(self@.take(i as int)),
            decreases self.declarations@.len() - i,
        {
            let d = &self.declarations[i];
            assert(self@.take(i + 1).drop_last() == self@.take(i as int));
            assert(self@.take(i + 1).last() == d@);
            if d.is_public() && d.params.len() == 0 {
                let ghost prev = out@;
                out.push(d);
                proof {
                    crate::text::lemma_map_push(prev, d, |d: &TemplateDecl| d@);
                }
            }
            i += 1;
        }
        assert(self@.take(self@.len() as int) == self@);
        out
    }

    /// Append a declaration.
    pub fn push(&mut self, decl: TemplateDecl)
        ensures
            final(self)@ == old(self)@.push(decl@),
    {
        let ghost prev = self.declarations@;
        self.declarations.push(decl);
        proof {
            crate::text::lemma_map_push(prev, decl, |d: TemplateDecl| d@);
        }
    }
}

/// A `[query ...]` declaration in its own shape: name, parameters,
/// expression and declared return type.
#[derive(Debug, Clone, PartialEq, Eq)]
pub struct QueryDecl {
    /// Query name.
    pub name: String,
    /// Parameters.
    pub params: Vec<TemplateParam>,
    /// Expression body.
    pub expression: String,
    /// Declared return type.
    pub return_type: Option<String>,
}

/// The text of each binding of `v`.
pub open spec fn pairs_view(v: Seq<(String, String)>) -> Seq<(Seq<char>, Seq<char>)> {
    v.map_values(|p: (String, String)| (p.0@, p.1@))
}

/// The map that binds each key of `s` to its value.
pub open spec fn to_map(s: Seq<(Seq<char>, Seq<char>)>) -> Map<Seq<char>, Seq<char>>
    decreases s.len(),
{
    if s.len() == 0 {
        Map::empty()
    } else {
        to_map(s.drop_last()).insert(s.last().0, s.last().1)
    }
}

/// The map of a sequence of bindings is finite.
pub proof fn lemma_to_map_finite(s: Seq<(Seq<char>, Seq<char>)>)
    ensures
        to_map(s).dom().finite(),
    decreases s.len(),
{
    if s.len() > 0 {
        lemma_to_map_finite(s.drop_last());
    }
}

/// The keys of `s` are in strictly increasing order.
pub open spec fn keys_sorted(s: Seq<(Seq<char>, Seq<char>)>) -> bool {
    forall|i: int, j: int| 0 <= i < j < s.len() ==> seq_lt(#[trigger] s[i].0, #[trigger] s[j].0)
}

/// In a sorted binding list, each key is bound to the value next to it.
pub proof fn lemma_to_map_index(s: Seq<(Seq<char>, Seq<char>)>, i: int)
    requires
        keys_sorted(s),
        0 <= i < s.len(),
    ensures
        to_map(s).contains_key(s[i].0),
        to_map(s)[s[i].0] == s[i].1,
    decreases s.len(),
{
    if i < s.len() - 1 {
        let t = s.drop_last();
        assert(keys_sorted(t)) by {
            assert forall|a: int, b: int| 0 <= a < b < t.len() implies seq_lt(
                #[trigger] t[a].0,
                #[trigger] t[b].0,
            ) by {
                assert(t[a] == s[a] && t[b] == s[b]);
            }
        }
        lemma_to_map_index(t, i);
        assert(seq_lt(s[i].0, s[s.len() - 1].0));
        lemma_seq_lt_irreflexive(s[i].0);
    }
}

/// Every key of the map is a key of the list.
pub proof fn lemma_to_map_key(s: Seq<(Seq<char>, Seq<char>)>, k: Seq<char>)
    requires
        to_map(s).contains_key(k),
    ensures
        exists|i: int| 0 <= i < s.len() && (#[trigger] s[i]).0 == k,
    decreases s.len(),
{
    if s.last().0 != k {
        lemma_to_map_key(s.drop_last(), k);
        let i = choose|i: int| 0 <= i < s.drop_last().len() && (#[trigger] s.drop_last()[i]).0 == k;
        assert(s[i] == s.drop_last()[i]);
    } else {
        assert(s[s.len() - 1].0 == k);
    }
}

/// The map of a list has finitely many keys, one per entry of a sorted list.
pub proof fn lemma_to_map_len(s: Seq<(Seq<char>, Seq<char>)>)
    requires
        keys_sorted(s),
    ensures
        to_map(s).dom().finite(),
        to_map(s).dom().len() == s.len(),
    decreases s.len(),
{
    if s.len() > 0 {
        let t = s.drop_last();
        assert(keys_sorted(t)) by {
            assert forall|a: int, b: int| 0 <= a < b < t.len() implies seq_lt(
                #[trigger] t[a].0,
                #[trigger] t[b].0,
            ) by {
                assert(t[a] == s[a] && t[b] == s[b]);
            }
        }
        lemma_to_map_len(t);
        if to_map(t).contains_key(s.last().0) {
            lemma_to_map_key(t, s.last().0);
            let i = choose|i: int| 0 <= i < t.len() && (#[trigger] t[i]).0 == s.last().0;
            assert(t[i] == s[i]);
            assert(seq_lt(s[i].0, s[s.len() - 1].0));
            lemma_seq_lt_irreflexive(s[i].0);
        }
    }
}

/// In a sorted binding list, a name is bound exactly when some entry has it
/// as key, and then to that entry's value.
pub proof fn lemma_to_map_lookup(s: Seq<(Seq<char>, Seq<char>)>, k: Seq<char>)
    requires
        keys_sorted(s),
    ensures
        to_map(s).contains_key(k) <==> exists|i: int| 0 <= i < s.len() && (#[trigger] s[i]).0 == k,
        forall|i: int| 0 <= i < s.len() && (#[trigger] s[i]).0 == k ==> to_map(s)[k] == s[i].1,
{
    if to_map(s).contains_key(k) {
        lemma_to_map_key(s, k);
    }
    assert forall|i: int| 0 <= i < s.len() && (#[trigger] s[i]).0 == k implies to_map(s).contains_key(k)
        && to_map(s)[k] == s[i].1 by {
        lemma_to_map_index(s, i);
    }
}

/// Runtime variable bindings used while rendering a template: each name is
/// bound to one text. The bindings are kept in increasing name order.
#[derive(Debug)]
pub struct ValueContext {
    values: Vec<(String, String)>,
}

impl ValueContext {
    /// The bindings, as text, in storage order.
    pub closed spec fn pairs(&self) -> Seq<(Seq<char>, Seq<char>)> {
        pairs_view(self.values@)
    }

    /// The bindings as a map from name to text.
    pub closed spec fn as_map(&self) -> Map<Seq<char>, Seq<char>> {
        to_map(self.pairs())
    }

    #[verifier::type_invariant]
    spec fn wf(&self) -> bool {
        keys_sorted(self.pairs())
    }
}

impl Clone for ValueContext {
    /// A context with the same bindings.
    fn clone(&self) -> (r: Self)
        ensures
            r@ == self@,
    {
        proof {
            use_type_invariant(self);
        }
        let mut values: Vec<(String, String)> = Vec::new();
        let mut i: usize = 0;
        while i < self.values.len()
            invariant
                i <= self.values@.len(),
                keys_sorted(self.pairs()),
                pairs_view(values@) == self.pairs().take(i as int),
            decreases self.values@.len() - i,
        {
            let k = self.values[i].0.clone();
            let v = self.values[i].1.clone();
            let ghost prev = values@;
            values.push((k, v));
            proof {
                crate::text::lemma_map_push(prev, (k, v), |p: (String, String)| (p.0@, p.1@));
                assert(self.pairs().take(i + 1) == self.pairs().take(i as int).push(self.pairs()[i as int]));
            }
            i += 1;
        }
        assert(self.pairs().take(self.values@.len() as int) == self.pairs());
        ValueContext { values }
    }
}

impl View for ValueContext {
    type V = Map<Seq<char>, Seq<char>>;

    open spec fn view(&self) -> Map<Seq<char>, Seq<char>> {
        self.as_map()
    }
}

impl Default for ValueContext {
    fn default() -> (r: Self)
        ensures
            r@ == Map::<Seq<char>, Seq<char>>::empty(),
    {
        Self::new()
    }
}

impl ValueContext {
    /// An empty context.
    pub fn new() -> (r: Self)
        ensures
            r@ == Map::<Seq<char>, Seq<char>>::empty(),
    {
        let r = ValueContext { values: Vec::new() };
        assert(r.pairs().len() == 0);
        r
    }

    /// Position at which `name` is or would be stored, and whether it is
    /// there.
    fn locate(&self, name: &[char]) -> (r: (usize, bool))
        ensures
            r.0 <= self.pairs().len(),
            forall|j: int| 0 <= j < r.0 ==> seq_lt(#[trigger] self.pairs()[j].0, name@),
            r.0 < self.pairs().len() ==> !seq_lt(self.pairs()[r.0 as int].0, name@),
            r.1 == (r.0 < self.pairs().len() && self.pairs()[r.0 as int].0 == name@),
    {
        let mut i: usize = 0;
        while i < self.values.len()
            invariant
                i <= self.values@.len(),
                self.pairs().len() == self.values@.len(),
                forall|j: int| 0 <= j < i ==> seq_lt(#[trigger] self.pairs()[j].0, name@),
            decreases self.values@.len() - i,
        {
            let k = chars_of(self.values[i].0.as_str());
            assert(k@ == self.pairs()[i as int].0);
            if !chars_lt(k.as_slice(), name) {
                let found = chars_eq(k.as_slice(), name);
                return (i, found);
            }
            i += 1;
        }
        (i, false)
    }

    /// A name found absent by `locate` is not bound.
    proof fn lemma_absent(&self, name: Seq<char>, i: int)
        requires
            keys_sorted(self.pairs()),
            0 <= i <= self.pairs().len(),
            forall|j: int| 0 <= j < i ==> seq_lt(#[trigger] self.pairs()[j].0, name),
            i < self.pairs().len() ==> !seq_lt(self.pairs()[i].0, name),
            !(i < self.pairs().len() && self.pairs()[i].0 == name),
        ensures
            !self@.contains_key(name),
            forall|j: int| i <= j < self.pairs().len() ==> seq_lt(name, #[trigger] self.pairs()[j].0),
    {
        let p = self.pairs();
        assert forall|j: int| i <= j < p.len() implies seq_lt(name, #[trigger] p[j].0) by {
            lemma_seq_lt_total(p[i].0, name);
            if j > i {
                lemma_seq_lt_transitive(name, p[i].0, p[j].0);
            }
        }
        if self@.contains_key(name) {
            lemma_to_map_key(p, name);
            let j = choose|j: int| 0 <= j < p.len() && (#[trigger] p[j]).0 == name;
            lemma_seq_lt_irreflexive(name);
            if j < i {
                assert(seq_lt(p[j].0, name));
            } else {
                assert(seq_lt(name, p[j].0));
            }
        }
    }

    /// Look up a variable.
    pub fn get(&self, name: &str) -> (r: Option<&str>)
        ensures
            match r {
                Some(v) => self@.contains_key(name@) && v@ == self@[name@],
                None => !self@.contains_key(name@),
            },
    {
        proof {
            use_type_invariant(self);
        }
        let key = chars_of(name);
        let (i, found) = self.locate(key.as_slice());
        if found {
            proof {
                lemma_to_map_index(self.pairs(), i as int);
            }
            Some(self.values[i].1.as_str())
        } else {
            proof {
                self.lemma_absent(name@, i as int);
            }
            None
        }
    }

    /// Whether a variable is bound.
    pub fn contains(&self, name: &str) -> (r: bool)
        ensures
            r == self@.contains_key(name@),
    {
        self.get(name).is_some()
    }

    /// Number of bound variables.
    pub fn len(&self) -> (r: usize)
        ensures
            r == self@.len(),
    {
        proof {
            use_type_invariant(self);
            lemma_to_map_len(self.pairs());
        }
        self.values.len()
    }

    /// Whether the context is empty.
    pub fn is_empty(&self) -> (r: bool)
        ensures
            r == (self@.len() == 0),
    {
        self.len() == 0
    }

    /// Bind `name` to `value`, in place.
    fn bind_in_place(&mut self, name: &str, value: &str)
        ensures
            final(self)@ == old(self)@.insert(name@, value@),
    {
        proof {
            use_type_invariant(&*self);
        }
        let key = chars_of(name);
        let (i, found) = self.locate(key.as_slice());
        proof {
            if !found {
                self.lemma_absent(name@, i as int);
            }
        }
        let ghost p = self.pairs();
        let mut vals: Vec<(String, String)> = Vec::new();
        std::mem::swap(&mut vals, &mut self.values);
        assert(pairs_view(vals@) == p);
        let entry = (name.to_owned(), value.to_owned());
        let ghost e = (name@, value@);
        let ghost before = vals@;
        vals.insert(i, entry);
        assert(pairs_view(vals@) =~= p.insert(i as int, e)) by {
            assert(vals@ == before.insert(i as int, entry));
        }
        if found {
            let n = vals.len();
            assert(i + 1 < n);
            let ghost mid = vals@;
            vals.remove(i + 1);
            assert(pairs_view(vals@) =~= p.update(i as int, e)) by {
                assert(vals@ == mid.remove(i + 1));
            }
        }
        let ghost q = pairs_view(vals@);
        proof {
            if found {
                assert(q == p.update(i as int, e));
                assert forall|a: int, b: int| 0 <= a < b < q.len() implies seq_lt(
                    #[trigger] q[a].0,
                    #[trigger] q[b].0,
                ) by {
                    assert(q[a].0 == p[a].0 && q[b].0 == p[b].0);
                }
                assert forall|x: Seq<char>|
                    (#[trigger] to_map(q).contains_key(x) <==> to_map(p).insert(
                        name@,
                        value@,
                    ).contains_key(x)) && (to_map(q).contains_key(x) ==> to_map(q)[x] == to_map(
                        p,
                    ).insert(name@, value@)[x]) by {
                    lemma_to_map_lookup(p, x);
                    lemma_to_map_lookup(q, x);
                    if x == name@ {
                        assert(q[i as int].0 == x);
                    } else {
                        if to_map(p).contains_key(x) {
                            let j = choose|j: int| 0 <= j < p.len() && (#[trigger] p[j]).0 == x;
                            assert(q[j].0 == x);
                        }
                        if to_map(q).contains_key(x) {
                            let j = choose|j: int| 0 <= j < q.len() && (#[trigger] q[j]).0 == x;
                            assert(p[j].0 == x);
                        }
                    }
                }
            } else {
                assert(q == p.insert(i as int, e));
                assert forall|a: int, b: int| 0 <= a < b < q.len() implies seq_lt(
                    #[trigger] q[a].0,
                    #[trigger] q[b].0,
                ) by {
                    if b < i {
                        assert(q[a] == p[a] && q[b] == p[b]);
                    } else if b == i {
                        assert(q[a] == p[a]);
                    } else if a < i {
                        assert(q[a] == p[a] && q[b] == p[b - 1]);
                    } else if a == i {
                        assert(q[b] == p[b - 1]);
                    } else {
                        assert(q[a] == p[a - 1] && q[b] == p[b - 1]);
                    }
                }
                assert forall|x: Seq<char>|
                    (#[trigger] to_map(q).contains_key(x) <==> to_map(p).insert(
                        name@,
                        value@,
                    ).contains_key(x)) && (to_map(q).contains_key(x) ==> to_map(q)[x] == to_map(
                        p,
                    ).insert(name@, value@)[x]) by {
                    lemma_to_map_lookup(p, x);
                    lemma_to_map_lookup(q, x);
                    if x == name@ {
                        assert(q[i as int].0 == x);
                    } else {
                        if to_map(p).contains_key(x) {
                            let j = choose|j: int| 0 <= j < p.len() && (#[trigger] p[j]).0 == x;
                            if j < i {
                                assert(q[j] == p[j]);
                            } else {
                                assert(q[j + 1] == p[j]);
                            }
                        }
                        if to_map(q).contains_key(x) {
                            let j = choose|j: int| 0 <= j < q.len() && (#[trigger] q[j]).0 == x;
                            if j < i {
                                assert(p[j] == q[j]);
                            } else {
                                assert(p[j - 1] == q[j]);
                            }
                        }
                    }
                }
            }
            assert(to_map(q) =~= to_map(p).insert(name@, value@));
        }
        self.values = vals;
    }

    /// Bind a variable to a text value (rebinding replaces the old value).
    pub fn bind(&mut self, name: &str, value: &str) -> (r: &mut Self)
        ensures
            r@ == old(self)@.insert(name@, value@),
            r@.dom().finite(),
            r@.len() == old(self)@.len() + if old(self)@.contains_key(name@) {
                0nat
            } else {
                1nat
            },
            *final(self) == *final(r),
    {
        proof {
            lemma_to_map_finite(self.pairs());
        }
        self.bind_in_place(name, value);
        proof {
            lemma_to_map_finite(self.pairs());
        }
        self
    }

    /// Bind a variable to the text that `value`'s `Display` impl writes.
    pub fn bind_fmt<T: std::fmt::Display>(&mut self, name: &str, value: T) -> (r: &mut Self)
        ensures
            r@.dom() == old(self)@.dom().insert(name@),
            forall|k: Seq<char>| k != name@ && #[trigger] old(self)@.contains_key(k) ==> r@[k] == old(self)@[k],
            *final(self) == *final(r),
    {
        let text = display_text(&value);
        self.bind_in_place(name, text.as_str());
        self
    }

    /// The bindings as (name, value) pairs, in increasing name order.
    pub fn bindings(&self) -> (r: Vec<(String, String)>)
        ensures
            keys_sorted(pairs_view(r@)),
            to_map(pairs_view(r@)) == self@,
    {
        proof {
            use_type_invariant(self);
        }
        let c = self.clone();
        proof {
            use_type_invariant(&c);
        }
        c.values
    }
}

/// `ToString::to_string` on a `Display` value: the text its `fmt` writes.
/// That text is up to the value's `Display` impl; nothing is stated of it.
#[verifier::external_body]
fn display_text<T: std::fmt::Display>(value: &T) -> (r: String) {
    value.to_string()
}

/// A character allowed in a variable name after the `$`.
pub open spec fn var_char(c: char) -> bool {
    alphanumeric(c) || c == '_' || c == '.'
}

/// `t` is a simple `$name` variable reference.
pub open spec fn is_var_ref(t: Seq<char>) -> bool {
    &&& t.len() > 0
    &&& t[0] == '$'
    &&& forall|j: int| 1 <= j < t.len() ==> var_char(#[trigger] t[j])
}

/// The text bound to `k`, or nothing.
pub open spec fn bound_text(ctx: Map<Seq<char>, Seq<char>>, k: Seq<char>) -> Seq<char> {
    if ctx.contains_key(k) {
        ctx[k]
    } else {
        Seq::empty()
    }
}

/// `s` with every `[$name]` reference replaced by the text bound to `name`
/// (nothing when unbound); other text, and brackets that do not enclose a
/// variable reference, are kept.
pub open spec fn substitute_spec(s: Seq<char>, ctx: Map<Seq<char>, Seq<char>>) -> Seq<char>
    decreases s.len(),
{
    if s.len() == 0 {
        Seq::empty()
    } else if s[0] == '[' {
        match find(s.drop_first(), seq![']']) {
            Some(c) => {
                proof {
                    lemma_find(s.drop_first(), seq![']']);
                }
                let token = trim(s.subrange(1, c + 1));
                if is_var_ref(token) {
                    bound_text(ctx, token.drop_first()) + substitute_spec(
                        s.subrange(c + 2, s.len() as int),
                        ctx,
                    )
                } else {
                    seq!['['] + substitute_spec(s.drop_first(), ctx)
                }
            },
            None => seq!['['] + substitute_spec(s.drop_first(), ctx),
        }
    } else {
        seq![s[0]] + substitute_spec(s.drop_first(), ctx)
    }
}

/// Whether `t` is a simple `$name` variable reference (computed).
pub fn var_ref(t: &[char]) -> (r: bool)
    ensures
        r == is_var_ref(t@),
{
    if t.len() == 0 || t[0] != '$' {
        return false;
    }
    let mut j: usize = 1;
    while j < t.len()
        invariant
            1 <= j <= t@.len(),
            forall|k: int| 1 <= k < j ==> var_char(#[trigger] t@[k]),
        decreases t@.len() - j,
    {
        let c = t[j];
        if !(is_alphanumeric(c) || c == '_' || c == '.') {
            return false;
        }
        j += 1;
    }
    true
}

/// Expand a template body by replacing `[$name]` references with the
/// values bound in `ctx`.
pub fn substitute(body: &str, ctx: &ValueContext) -> (r: String)
    ensures
        r@ == substitute_spec(body@, ctx@),
{
    let s = chars_of(body);
    let n = s.len();
    let close: Vec<char> = vec![']'];
    assert(close@ == seq![']']);
    let mut out: Vec<char> = Vec::new();
    let mut i: usize = 0;
    assert(s@.subrange(0, n as int) == s@);
    assert(out@ + substitute_spec(s@, ctx@) =~= substitute_spec(s@, ctx@));
    while i < n
        invariant
            n == s@.len(),
            i <= n,
            close@ == seq![']'],
            out@ + substitute_spec(s@.subrange(i as int, n as int), ctx@) == substitute_spec(s@, ctx@),
        decreases n - i,
    {
        let ghost rest = s@.subrange(i as int, n as int);
        assert(rest.drop_first() == s@.subrange(i + 1, n as int));
        assert(rest[0] == s@[i as int]);
        if s[i] == '[' {
            match find_in(s.as_slice(), close.as_slice(), i + 1) {
                Some(c) => {
                    proof {
                        lemma_find(rest.drop_first(), seq![']']);
                    }
                    let inner = slice_chars(s.as_slice(), i + 1, i + 1 + c);
                    assert(inner@ == rest.subrange(1, c + 1));
                    let token = trim_chars(inner.as_slice());
                    if var_ref(token.as_slice()) {
                        let key = slice_chars(token.as_slice(), 1, token.len());
                        assert(key@ == token@.drop_first());
                        let name = string_of(key.as_slice());
                        let ghost before = out@;
                        match ctx.get(name.as_str()) {
                            Some(v) => {
                                let mut vc = chars_of(v);
                                out.append(&mut vc);
                            },
                            None => {},
                        }
                        assert(out@ == before + bound_text(ctx@, token@.drop_first()));
                        assert(rest.subrange(c + 2, rest.len() as int) == s@.subrange(
                            i + c + 2,
                            n as int,
                        ));
                        i = i + c + 2;
                        continue ;
                    }
                },
                None => {},
            }
            out.push('[');
            i += 1;
        } else {
            out.push(s[i]);
            i += 1;
        }
    }
    assert(s@.subrange(n as int, n as int) == Seq::<char>::empty());
    string_of(out.as_slice())
}

/// The first comment in `s`: its position, and whether it is a `[/* */]`
/// block (else a `[comment ...]` tag).
pub open spec fn next_comment(s: Seq<char>) -> Option<(int, bool)> {
    match (find(s, comment_tag()), find(s, block_open())) {
        (Some(a), Some(b)) => if a < b {
            Some((a, false))
        } else {
            Some((b, true))
        },
        (Some(a), None) => Some((a, false)),
        (None, Some(b)) => Some((b, true)),
        (None, None) => None,
    }
}

/// `s` with its comments removed: each `[comment ...]` tag up to and
/// including the first `]` after the tag's keyword, and each `[/* ... */]`
/// block up to and including the first `*/]`; an unterminated one is kept
/// with the rest of the text.
pub open spec fn strip_spec(s: Seq<char>) -> Seq<char>
    decreases s.len(),
{
    match next_comment(s) {
        None => s,
        Some((p, block)) => {
            proof {
                lemma_find(s, comment_tag());
                lemma_find(s, block_open());
            }
            if !block {
                s.subrange(0, p) + match find(s.subrange(p + 8, s.len() as int), seq![']']) {
                    Some(idx) => {
                        proof {
                            lemma_find(s.subrange(p + 8, s.len() as int), seq![']']);
                        }
                        strip_spec(s.subrange(p + 8 + idx + 1, s.len() as int))
                    },
                    None => s.subrange(p, s.len() as int),
                }
            } else {
                s.subrange(0, p) + match find(s.subrange(p + 3, s.len() as int), block_close()) {
                    Some(idx) => {
                        proof {
                            lemma_find(s.subrange(p + 3, s.len() as int), block_close());
                        }
                        strip_spec(s.subrange(p + 3 + idx + 3, s.len() as int))
                    },
                    None => s.subrange(p, s.len() as int),
                }
            }
        },
    }
}

/// The text `[comment`.
pub open spec fn comment_tag() -> Seq<char> {
    seq!['[', 'c', 'o', 'm', 'm', 'e', 'n', 't']
}

/// The text `[/*`.
pub open spec fn block_open() -> Seq<char> {
    seq!['[', '/', '*']
}

/// The text `*/]`.
pub open spec fn block_close() -> Seq<char> {
    seq!['*', '/', ']']
}

/// Strip MTL comments, `[comment ... ]` tags and `[/* ... */]` blocks, from
/// a body.
#[verifier::spinoff_prover]
#[verifier::rlimit(40)]
pub fn strip_comments(body: &str) -> (r: String)
    ensures
        r@ == strip_spec(body@),
{
    let s = chars_of(body);
    let n = s.len();
    let tag: Vec<char> = vec!['[', 'c', 'o', 'm', 'm', 'e', 'n', 't'];
    let close: Vec<char> = vec![']'];
    let bopen: Vec<char> = vec!['[', '/', '*'];
    let bclose: Vec<char> = vec!['*', '/', ']'];
    assert(tag@ == comment_tag());
    assert(close@ == seq![']']);
    assert(bopen@ == block_open());
    assert(bclose@ == block_close());
    let mut out: Vec<char> = Vec::new();
    let mut start: usize = 0;
    assert(s@.subrange(0, n as int) == s@);
    assert(out@ + strip_spec(s@) =~= strip_spec(s@));
    loop
        invariant
            n == s@.len(),
            s@ == body@,
            start <= n,
            tag@ == comment_tag(),
            close@ == seq![']'],
            bopen@ == block_open(),
            bclose@ == block_close(),
            out@ + strip_spec(s@.subrange(start as int, n as int)) == strip_spec(s@),
        decreases n - start,
    {
        let ghost rest = s@.subrange(start as int, n as int);
        let ghost before = out@;
        let a = find_in(s.as_slice(), tag.as_slice(), start);
        let b = find_in(s.as_slice(), bopen.as_slice(), start);
        let next: Option<(usize, bool)> = match (a, b) {
            (Some(x), Some(y)) => if x < y {
                Some((x, false))
            } else {
                Some((y, true))
            },
            (Some(x), None) => Some((x, false)),
            (None, Some(y)) => Some((y, true)),
            (None, None) => None,
        };
        assert(next_comment(rest) == match next {
            Some((x, f)) => Some((x as int, f)),
            None => None::<(int, bool)>,
        });
        match next {
            None => {
                let mut tail = slice_chars(s.as_slice(), start, n);
                out.append(&mut tail);
                assert(strip_spec(rest) == rest);
                assert(out@ == strip_spec(s@));
                return string_of(out.as_slice());
            },
            Some((p, block)) => {
                if block {
                    proof {
                        lemma_find(rest, block_open());
                    }
                    assert(rest.subrange(p as int, p + 3) == block_open());
                    let mut pre = slice_chars(s.as_slice(), start, start + p);
                    assert(pre@ == rest.subrange(0, p as int));
                    out.append(&mut pre);
                    assert(rest.subrange(p + 3, rest.len() as int) == s@.subrange(
                        start + p + 3,
                        n as int,
                    ));
                    match find_in(s.as_slice(), bclose.as_slice(), start + p + 3) {
                        Some(idx) => {
                            proof {
                                lemma_find(s@.subrange(start + p + 3, n as int), block_close());
                            }
                            assert(rest.subrange(p + 3 + idx + 3, rest.len() as int)
                                == s@.subrange(start + p + 3 + idx + 3, n as int));
                            assert(strip_spec(rest) == rest.subrange(0, p as int) + strip_spec(
                                rest.subrange(p + 3 + idx + 3, rest.len() as int),
                            ));
                            assert(out@ + strip_spec(rest.subrange(p + 3 + idx + 3, rest.len() as int))
                                =~= before + strip_spec(rest));
                            start = start + p + 3 + idx + 3;
                        },
                        None => {
                            let mut tail = slice_chars(s.as_slice(), start + p, n);
                            assert(tail@ == rest.subrange(p as int, rest.len() as int));
                            out.append(&mut tail);
                            assert(strip_spec(rest) == rest.subrange(0, p as int) + rest.subrange(
                                p as int,
                                rest.len() as int,
                            ));
                            assert(out@ =~= before + strip_spec(rest));
                            return string_of(out.as_slice());
                        },
                    }
                } else {
                    proof {
                        lemma_find(rest, comment_tag());
                    }
                    assert(rest.subrange(p as int, p + 8) == comment_tag());
                    let mut pre = slice_chars(s.as_slice(), start, start + p);
                    assert(pre@ == rest.subrange(0, p as int));
                    out.append(&mut pre);
                    assert(rest.subrange(p + 8, rest.len() as int) == s@.subrange(
                        start + p + 8,
                        n as int,
                    ));
                    match find_in(s.as_slice(), close.as_slice(), start + p + 8) {
                        Some(idx) => {
                            proof {
                                lemma_find(s@.subrange(start + p + 8, n as int), seq![']']);
                            }
                            assert(rest.subrange(p + 8 + idx + 1, rest.len() as int)
                                == s@.subrange(start + p + 8 + idx + 1, n as int));
                            assert(strip_spec(rest) == rest.subrange(0, p as int) + strip_spec(
                                rest.subrange(p + 8 + idx + 1, rest.len() as int),
                            ));
                            assert(out@ + strip_spec(rest.subrange(p + 8 + idx + 1, rest.len() as int))
                                =~= before + strip_spec(rest));
                            start = start + p + 8 + idx + 1;
                        },
                        None => {
                            let mut tail = slice_chars(s.as_slice(), start + p, n);
                            assert(tail@ == rest.subrange(p as int, rest.len() as int));
                            out.append(&mut tail);
                            assert(strip_spec(rest) == rest.subrange(0, p as int) + rest.subrange(
                                p as int,
                                rest.len() as int,
                            ));
                            assert(out@ =~= before + strip_spec(rest));
                            return string_of(out.as_slice());
                        },
                    }
                }
            },
        }
    }
}

/// A lookup after binding a name gives the value bound; other names keep
/// their bindings.
pub proof fn lemma_bind_then_get(ctx: Map<Seq<char>, Seq<char>>, name: Seq<char>, value: Seq<char>, other: Seq<char>)
    ensures
        ctx.insert(name, value).contains_key(name),
        ctx.insert(name, value)[name] == value,
        other != name ==> ctx.insert(name, value).contains_key(other) == ctx.contains_key(other),
        other != name && ctx.contains_key(other) ==> ctx.insert(name, value)[other] == ctx[other],
{
}

/// Text without `[` is left as it is by substitution and comment
/// stripping.
pub proof fn lemma_plain_text_unchanged(s: Seq<char>, ctx: Map<Seq<char>, Seq<char>>)
    requires
        !s.contains('['),
    ensures
        substitute_spec(s, ctx) == s,
        strip_spec(s) == s,
    decreases s.len(),
{
    crate::text::lemma_find(s, comment_tag());
    crate::text::lemma_find(s, block_open());
    if find(s, comment_tag()) is Some {
        let p = find(s, comment_tag())->0;
        assert(s.subrange(p, p + 8)[0] == s[p]);
    }
    if find(s, block_open()) is Some {
        let p = find(s, block_open())->0;
        assert(s.subrange(p, p + 3)[0] == s[p]);
    }
    if s.len() > 0 {
        let t = s.drop_first();
        assert(!t.contains('[')) by {
            if t.contains('[') {
                let k = choose|k: int| 0 <= k < t.len() && t[k] == '[';
                assert(s[k + 1] == '[');
            }
        }
        lemma_plain_text_unchanged(t, ctx);
        assert(seq![s[0]] + t =~= s);
    }
}

} // verus!

//! Diagnostics (EMF `Diagnostic` / `BasicDiagnostic` / `DiagnosticChain`):
//! a diagnostic carries a severity, a source, a code, a message and nested
//! children, and its severity is never lower than that of a child added to
//! it.
use vstd::prelude::*;

verus! {

/// Severity of a diagnostic message, from least to most severe.
#[derive(Debug, Clone, Copy, PartialEq, Eq, PartialOrd, Ord)]
pub enum Severity {
    /// Nothing wrong.
    Okay,
    /// Informational.
    Info,
    /// A potential problem.
    Warning,
    /// A definite problem.
    Error,
    /// Cancelled.
    Cancel,
}

/// Position of a severity in the order `Okay < Info < Warning < Error < Cancel`.
pub open spec fn rank(s: Severity) -> int {
    match s {
        Severity::Okay => 0,
        Severity::Info => 1,
        Severity::Warning => 2,
        Severity::Error => 3,
        Severity::Cancel => 4,
    }
}

/// The more severe of two severities.
pub open spec fn max_severity(a: Severity, b: Severity) -> Severity {
    if rank(b) > rank(a) {
        b
    } else {
        a
    }
}

/// The display name of a severity.
pub open spec fn severity_name(s: Severity) -> Seq<char> {
    match s {
        Severity::Okay => seq!['O', 'K'],
        Severity::Info => seq!['I', 'N', 'F', 'O'],
        Severity::Warning => seq!['W', 'A', 'R', 'N', 'I', 'N', 'G'],
        Severity::Error => seq!['E', 'R', 'R', 'O', 'R'],
        Severity::Cancel => seq!['C', 'A', 'N', 'C', 'E', 'L'],
    }
}

impl Severity {
    /// Position in the severity order (computed).
    pub fn rank(&self) -> (r: u8)
        ensures
            r == rank(*self),
    {
        match self {
            Severity::Okay => 0,
            Severity::Info => 1,
            Severity::Warning => 2,
            Severity::Error => 3,
            Severity::Cancel => 4,
        }
    }

    /// Human name.
    pub fn name(&self) -> (r: &'static str)
        ensures
            r@ == severity_name(*self),
    {
        match self {
            Severity::Okay => {
                proof {
                    reveal_strlit("OK");
                }
                "OK"
            },
            Severity::Info => {
                proof {
                    reveal_strlit("INFO");
                }
                "INFO"
            },
            Severity::Warning => {
                proof {
                    reveal_strlit("WARNING");
                }
                "WARNING"
            },
            Severity::Error => {
                proof {
                    reveal_strlit("ERROR");
                }
                "ERROR"
            },
            Severity::Cancel => {
                proof {
                    reveal_strlit("CANCEL");
                }
                "CANCEL"
            },
        }
    }

    /// The human name, as a `String`.
    pub fn to_string(&self) -> (r: String)
        ensures
            r@ == severity_name(*self),
    {
        self.name().to_owned()
    }
}

/// A single diagnostic message with nested children.
#[derive(Debug)]
pub struct Diagnostic {
    severity: Severity,
    source: String,
    code: i32,
    message: String,
    data: Vec<String>,
    children: Vec<Diagnostic>,
}

/// `a` and `b` are the same down to `depth` levels of children: the same
/// fields, as many children, and (below the last level) children that are
/// pairwise the same down to one level less.
pub open spec fn same_upto(a: Diagnostic, b: Diagnostic, depth: nat) -> bool
    decreases depth, 0nat,
{
    &&& a.same(b)
    &&& depth > 0 ==> same_list(a.children_spec(), b.children_spec(), (depth - 1) as nat)
}

/// The diagnostics of `xs` and `ys` are pairwise the same down to `depth`
/// levels of children (and there are as many).
pub open spec fn same_list(xs: Seq<Diagnostic>, ys: Seq<Diagnostic>, depth: nat) -> bool
    decreases depth, xs.len() + 1,
{
    if xs.len() == 0 {
        ys.len() == 0
    } else {
        ys.len() == xs.len() && same_list(xs.drop_last(), ys.drop_last(), depth) && same_upto(
            xs.last(),
            ys.last(),
            depth,
        )
    }
}

/// Sequences whose entries are pairwise the same trees are the same at
/// every depth.
pub proof fn lemma_same_list(xs: Seq<Diagnostic>, ys: Seq<Diagnostic>, depth: nat)
    requires
        xs.len() == ys.len(),
        forall|i: int| 0 <= i < xs.len() ==> #[trigger] xs[i].same_tree(ys[i]),
    ensures
        same_list(xs, ys, depth),
    decreases xs.len(),
{
    if xs.len() > 0 {
        lemma_same_list(xs.drop_last(), ys.drop_last(), depth);
        assert(xs[xs.len() - 1].same_tree(ys[xs.len() - 1]));
        assert(xs.last().same_to(ys.last(), depth));
    }
}

impl Diagnostic {
    /// Severity.
    pub closed spec fn severity_spec(&self) -> Severity {
        self.severity
    }

    /// Source (plugin/module id).
    pub closed spec fn source_spec(&self) -> Seq<char> {
        self.source@
    }

    /// Code.
    pub closed spec fn code_spec(&self) -> i32 {
        self.code
    }

    /// Message.
    pub closed spec fn message_spec(&self) -> Seq<char> {
        self.message@
    }

    /// Nested children.
    pub closed spec fn children_spec(&self) -> Seq<Diagnostic> {
        self.children@
    }

    /// Attached data.
    pub closed spec fn data_spec(&self) -> Seq<String> {
        self.data@
    }

    /// New diagnostic without children.
    pub fn new(severity: Severity, source: &str, code: i32, message: &str) -> (r: Self)
        ensures
            r.severity_spec() == severity,
            r.source_spec() == source@,
            r.code_spec() == code,
            r.message_spec() == message@,
            r.children_spec() == Seq::<Diagnostic>::empty(),
    {
        Diagnostic {
            severity,
            source: source.to_owned(),
            code,
            message: message.to_owned(),
            data: Vec::new(),
            children: Vec::new(),
        }
    }

    /// `self` and `other` hold the same severity, source, code, message and
    /// data, and as many children.
    pub open spec fn same(self, other: Diagnostic) -> bool {
        &&& self.severity_spec() == other.severity_spec()
        &&& self.source_spec() == other.source_spec()
        &&& self.code_spec() == other.code_spec()
        &&& self.message_spec() == other.message_spec()
        &&& self.data_spec() == other.data_spec()
        &&& self.children_spec().len() == other.children_spec().len()
    }

    /// `self` and `other` are the same down to `depth` levels of children
    /// (see `same_upto`).
    pub open spec fn same_to(self, other: Diagnostic, depth: nat) -> bool {
        same_upto(self, other, depth)
    }

    /// `self` and `other` are the same diagnostic tree: the same fields at
    /// every level.
    pub open spec fn same_tree(self, other: Diagnostic) -> bool {
        forall|depth: nat| #[trigger] self.same_to(other, depth)
    }

    /// Two diagnostics with the same fields whose children are pairwise the
    /// same trees are the same tree.
    pub proof fn lemma_same_tree_node(a: Diagnostic, b: Diagnostic)
        requires
            a.same(b),
            forall|i: int| 0 <= i < a.children_spec().len() ==> #[trigger] a.children_spec()[i].same_tree(
                b.children_spec()[i],
            ),
        ensures
            a.same_tree(b),
    {
        assert forall|depth: nat| #[trigger] a.same_to(b, depth) by {
            if depth > 0 {
                lemma_same_list(a.children_spec(), b.children_spec(), (depth - 1) as nat);
            }
        }
    }

    /// An exact copy, children included.
    pub fn duplicate(&self) -> (r: Diagnostic)
        ensures
            r.same_tree(*self),
            r.same(*self),
            forall|i: int|
                0 <= i < self.children_spec().len() ==> #[trigger] r.children_spec()[i].same(
                    self.children_spec()[i],
                ),
            r.severity_spec() == self.severity_spec(),
            r.source_spec() == self.source_spec(),
            r.code_spec() == self.code_spec(),
            r.message_spec() == self.message_spec(),
            r.children_spec().len() == self.children_spec().len(),
        decreases self,
    {
        let mut children: Vec<Diagnostic> = Vec::new();
        let mut i: usize = 0;
        while i < self.children.len()
            invariant
                i <= self.children@.len(),
                children@.len() == i,
                forall|j: int| 0 <= j < i ==> #[trigger] children@[j].same(self.children@[j]),
                forall|j: int| 0 <= j < i ==> #[trigger] children@[j].same_tree(self.children@[j]),
            decreases self.children@.len() - i,
        {
            proof {
                assert(decreases_to!(self => self.children));
                assert(decreases_to!(self.children => self.children@));
                assert(decreases_to!(self.children@ => self.children@[i as int]));
            }
            let c = self.children[i].duplicate();
            children.push(c);
            i += 1;
        }
        let mut data: Vec<String> = Vec::new();
        let mut k: usize = 0;
        while k < self.data.len()
            invariant
                k <= self.data@.len(),
                data@ == self.data@.take(k as int),
            decreases self.data@.len() - k,
        {
            data.push(self.data[k].clone());
            assert(data@ =~= self.data@.take(k + 1));
            k += 1;
        }
        assert(data@ =~= self.data@);
        let r = Diagnostic {
            severity: self.severity,
            source: self.source.clone(),
            code: self.code,
            message: self.message.clone(),
            data,
            children,
        };
        assert(r.source@ == self.source@);
        assert(r.message@ == self.message@);
        assert(r.data@ == self.data@);
        assert(r.children@.len() == self.children@.len());
        assert(r.same(*self));
        proof {
            Diagnostic::lemma_same_tree_node(r, *self);
        }
        r
    }

    /// Severity.
    pub fn severity(&self) -> (r: Severity)
        ensures
            r == self.severity_spec(),
    {
        self.severity
    }

    /// Source (plugin/module id).
    pub fn source(&self) -> (r: &str)
        ensures
            r@ == self.source_spec(),
    {
        self.source.as_str()
    }

    /// Code.
    pub fn code(&self) -> (r: i32)
        ensures
            r == self.code_spec(),
    {
        self.code
    }

    /// Message.
    pub fn message(&self) -> (r: &str)
        ensures
            r@ == self.message_spec(),
    {
        self.message.as_str()
    }

    /// Nested children.
    pub fn children(&self) -> (r: &[Diagnostic])
        ensures
            r@ == self.children_spec(),
    {
        self.children.as_slice()
    }

    /// Add a child diagnostic; the severity rises to the child's if that is
    /// higher.
    pub fn add(&mut self, child: Diagnostic)
        ensures
            final(self).severity_spec() == max_severity(old(self).severity_spec(), child.severity_spec()),
            final(self).children_spec() == old(self).children_spec().push(child),
            final(self).source_spec() == old(self).source_spec(),
            final(self).code_spec() == old(self).code_spec(),
            final(self).message_spec() == old(self).message_spec(),
    {
        if child.severity.rank() > self.severity.rank() {
            self.severity = child.severity;
        }
        self.children.push(child);
    }

    /// Add copies of all children of `other`; the severity rises to
    /// `other`'s if that is higher.
    pub fn add_all(&mut self, other: &Diagnostic)
        ensures
            final(self).severity_spec() == max_severity(old(self).severity_spec(), other.severity_spec()),
            final(self).children_spec().len() == old(self).children_spec().len()
                + other.children_spec().len(),
            final(self).children_spec().take(old(self).children_spec().len() as int) == old(
                self,
            ).children_spec(),
            forall|i: int|
                0 <= i < other.children_spec().len() ==> #[trigger] final(self).children_spec()[old(self).children_spec().len() + i].same_tree(other.children_spec()[i]),
            final(self).source_spec() == old(self).source_spec(),
            final(self).code_spec() == old(self).code_spec(),
            final(self).message_spec() == old(self).message_spec(),
    {
        let n0 = self.children.len();
        let mut i: usize = 0;
        while i < other.children.len()
            invariant
                i <= other.children@.len(),
                n0 == old(self).children@.len(),
                self.children@.len() == n0 + i,
                self.severity == old(self).severity,
                self.source@ == old(self).source@,
                self.code == old(self).code,
                self.message@ == old(self).message@,
                forall|j: int| 0 <= j < n0 ==> self.children@[j] == old(self).children@[j],
                self.children@.len() == n0 + i,
                forall|j: int| 0 <= j < n0 ==> self.children@[j] == old(self).children@[j],
                forall|j: int| 0 <= j < i ==> #[trigger] self.children@[n0 + j].same_tree(other.children@[j]),
            decreases other.children@.len() - i,
        {
            let c = other.children[i].duplicate();
            self.children.push(c);
            i += 1;
        }
        if other.severity.rank() > self.severity.rank() {
            self.severity = other.severity;
        }
    }

    /// An error diagnostic with code 0.
    pub fn error(source: &str, message: &str) -> (r: Self)
        ensures
            r.severity_spec() == Severity::Error,
            r.source_spec() == source@,
            r.code_spec() == 0,
            r.message_spec() == message@,
            r.children_spec() == Seq::<Diagnostic>::empty(),
    {
        Self::new(Severity::Error, source, 0, message)
    }

    /// A warning diagnostic with code 0.
    pub fn warning(source: &str, message: &str) -> (r: Self)
        ensures
            r.severity_spec() == Severity::Warning,
            r.source_spec() == source@,
            r.code_spec() == 0,
            r.message_spec() == message@,
            r.children_spec() == Seq::<Diagnostic>::empty(),
    {
        Self::new(Severity::Warning, source, 0, message)
    }
}

/// The most severe severity among `items`, `None` when there are none.
pub open spec fn worst_of(items: Seq<Diagnostic>) -> Option<Severity>
    decreases items.len(),
{
    if items.len() == 0 {
        None
    } else {
        let s = items.last().severity_spec();
        match worst_of(items.drop_last()) {
            None => Some(s),
            Some(w) => Some(
                if rank(s) >= rank(w) {
                    s
                } else {
                    w
                },
            ),
        }
    }
}

/// A collector of diagnostics (EMF `DiagnosticChain`).
pub struct DiagnosticChain {
    items: Vec<Diagnostic>,
}

impl View for DiagnosticChain {
    type V = Seq<Diagnostic>;

    closed spec fn view(&self) -> Seq<Diagnostic> {
        self.items@
    }
}

impl DiagnosticChain {
    /// New empty chain.
    pub fn new() -> (r: Self)
        ensures
            r@ == Seq::<Diagnostic>::empty(),
    {
        DiagnosticChain { items: Vec::new() }
    }

    /// Add a diagnostic.
    pub fn add(&mut self, d: Diagnostic)
        ensures
            final(self)@ == old(self)@.push(d),
    {
        self.items.push(d);
    }

    /// Whether empty.
    pub fn is_empty(&self) -> (r: bool)
        ensures
            r == (self@.len() == 0),
    {
        self.items.len() == 0
    }

    /// Number of diagnostics.
    pub fn len(&self) -> (r: usize)
        ensures
            r == self@.len(),
    {
        self.items.len()
    }

    /// The diagnostics.
    pub fn get(&self) -> (r: &[Diagnostic])
        ensures
            r@ == self@,
    {
        self.items.as_slice()
    }

    /// The highest severity present, `None` when the chain is empty.
    pub fn worst(&self) -> (r: Option<Severity>)
        ensures
            r == worst_of(self@),
    {
        let mut w: Option<Severity> = None;
        let mut i: usize = 0;
        while i < self.items.len()
            invariant
                i <= self.items@.len(),
                w == worst_of(self.items@.take(i as int)),
            decreases self.items@.len() - i,
        {
            let s = self.items[i].severity;
            proof {
                assert(self.items@.take(i + 1).drop_last() == self.items@.take(i as int));
                assert(self.items@.take(i + 1).last() == self.items@[i as int]);
            }
            w = match w {
                None => Some(s),
                Some(cur) => Some(
                    if s.rank() >= cur.rank() {
                        s
                    } else {
                        cur
                    },
                ),
            };
            i += 1;
        }
        assert(self.items@.take(self.items@.len() as int) == self.items@);
        w
    }

    /// Remove all diagnostics.
    pub fn clear(&mut self)
        ensures
            final(self)@ == Seq::<Diagnostic>::empty(),
    {
        self.items.clear();
    }
}

impl Default for DiagnosticChain {
    fn default() -> (r: Self)
        ensures
            r@ == Seq::<Diagnostic>::empty(),
    {
        Self::new()
    }
}

} // verus!

//! A detected difference between two (or three) versions of a model, with
//! its kind, type, source and merge state. Objects are named by their keys.
use vstd::prelude::*;

verus! {

/// Difference kind.
#[derive(Debug, Clone, Copy, PartialEq, Eq)]
pub enum DiffKind {
    /// An element was added.
    Add,
    /// An element was removed.
    Delete,
    /// A feature value changed.
    Change,
    /// An element moved within an ordered many-valued reference.
    Move,
}

/// What a difference is about.
#[derive(Debug, Clone, Copy, PartialEq, Eq)]
pub enum DiffType {
    /// Whole-object add/delete/change (no feature).
    ElementChange,
    /// An attribute change.
    AttributeChange,
    /// A reference change / add / delete / move.
    ReferenceChange,
}

/// Which side produced the difference.
#[derive(Debug, Clone, Copy, PartialEq, Eq)]
pub enum DifferenceSource {
    /// The left side.
    Left,
    /// The right side.
    Right,
}

/// Merge state of a difference.
#[derive(Debug, Clone, Copy, PartialEq, Eq)]
pub enum DifferenceState {
    /// Not yet merged.
    Pending,
    /// Merged.
    Merged,
    /// Discarded.
    Discarded,
}

/// Whether two object keys name the same object.
pub fn e_object_equals(a: usize, b: usize) -> (r: bool)
    ensures
        r == (a == b),
{
    a == b
}

/// A difference as the contracts see it.
pub struct DiffModel<V> {
    pub kind: DiffKind,
    pub type_: DiffType,
    pub attribute_name: Seq<char>,
    pub left: Option<usize>,
    pub right: Option<usize>,
    pub source: DifferenceSource,
    pub state: DifferenceState,
    pub old_index: i32,
    pub new_index: i32,
    pub old_value: Option<V>,
    pub new_value: Option<V>,
    pub match_index: Option<usize>,
}

/// A single difference: its kind and type, the feature it concerns (empty
/// for a whole object), the left and right objects, which side produced it,
/// its merge state, the old and new list positions (-1 when none), the old
/// and new values, and the match it belongs to.
#[derive(Debug, Clone)]
pub struct Diff<V> {
    kind: DiffKind,
    type_: DiffType,
    attribute_name: String,
    left: Option<usize>,
    right: Option<usize>,
    source: DifferenceSource,
    state: DifferenceState,
    old_index: i32,
    new_index: i32,
    old_value: Option<V>,
    new_value: Option<V>,
    match_index: Option<usize>,
}

impl<V> View for Diff<V> {
    type V = DiffModel<V>;

    closed spec fn view(&self) -> DiffModel<V> {
        DiffModel {
            kind: self.kind,
            type_: self.type_,
            attribute_name: self.attribute_name@,
            left: self.left,
            right: self.right,
            source: self.source,
            state: self.state,
            old_index: self.old_index,
            new_index: self.new_index,
            old_value: self.old_value,
            new_value: self.new_value,
            match_index: self.match_index,
        }
    }
}

/// The difference a fresh `Diff` holds: a pending whole-object change from
/// the right side with no feature, objects, positions, values or match.
pub open spec fn default_diff<V>() -> DiffModel<V> {
    DiffModel {
        kind: DiffKind::Change,
        type_: DiffType::ElementChange,
        attribute_name: Seq::empty(),
        left: None,
        right: None,
        source: DifferenceSource::Right,
        state: DifferenceState::Pending,
        old_index: -1i32,
        new_index: -1i32,
        old_value: None,
        new_value: None,
        match_index: None,
    }
}

impl<V> Default for Diff<V> {
    fn default() -> (r: Self)
        ensures
            r@ == default_diff::<V>(),
    {
        Diff {
            kind: DiffKind::Change,
            type_: DiffType::ElementChange,
            attribute_name: String::new(),
            left: None,
            right: None,
            source: DifferenceSource::Right,
            state: DifferenceState::Pending,
            old_index: -1,
            new_index: -1,
            old_value: None,
            new_value: None,
            match_index: None,
        }
    }
}

impl<V> Diff<V> {
    /// A fresh difference of kind `kind` about the feature `attribute_name`.
    pub fn new(kind: DiffKind, attribute_name: &str) -> (r: Self)
        ensures
            r@ == (DiffModel { kind, attribute_name: attribute_name@, ..default_diff::<V>() }),
    {
        let mut d = Self::default();
        d.kind = kind;
        d.attribute_name = attribute_name.to_string();
        d
    }

    /// This difference with left object `o`.
    pub fn with_left(self, o: usize) -> (r: Self)
        ensures
            r@ == (DiffModel { left: Some(o), ..self@ }),
    {
        let mut d = self;
        d.left = Some(o);
        d
    }

    /// This difference with right object `o`.
    pub fn with_right(self, o: usize) -> (r: Self)
        ensures
            r@ == (DiffModel { right: Some(o), ..self@ }),
    {
        let mut d = self;
        d.right = Some(o);
        d
    }

    /// This difference with kind `k`.
    pub fn with_kind(self, k: DiffKind) -> (r: Self)
        ensures
            r@ == (DiffModel { kind: k, ..self@ }),
    {
        let mut d = self;
        d.kind = k;
        d
    }

    /// This difference with type `t`.
    pub fn with_type(self, t: DiffType) -> (r: Self)
        ensures
            r@ == (DiffModel { type_: t, ..self@ }),
    {
        let mut d = self;
        d.type_ = t;
        d
    }

    /// This difference with source `s`.
    pub fn with_source(self, s: DifferenceSource) -> (r: Self)
        ensures
            r@ == (DiffModel { source: s, ..self@ }),
    {
        let mut d = self;
        d.source = s;
        d
    }

    /// This difference with old value `v`.
    pub fn with_old_value(self, v: V) -> (r: Self)
        ensures
            r@ == (DiffModel { old_value: Some(v), ..self@ }),
    {
        let mut d = self;
        d.old_value = Some(v);
        d
    }

    /// This difference with new value `v`.
    pub fn with_new_value(self, v: V) -> (r: Self)
        ensures
            r@ == (DiffModel { new_value: Some(v), ..self@ }),
    {
        let mut d = self;
        d.new_value = Some(v);
        d
    }

    /// This difference with old position `i`.
    pub fn with_old_index(self, i: i32) -> (r: Self)
        ensures
            r@ == (DiffModel { old_index: i, ..self@ }),
    {
        let mut d = self;
        d.old_index = i;
        d
    }

    /// This difference with new position `i`.
    pub fn with_new_index(self, i: i32) -> (r: Self)
        ensures
            r@ == (DiffModel { new_index: i, ..self@ }),
    {
        let mut d = self;
        d.new_index = i;
        d
    }

    /// The kind.
    pub fn kind(&self) -> (r: DiffKind)
        ensures
            r == self@.kind,
    {
        self.kind
    }

    /// Set the kind.
    pub fn set_kind(&mut self, k: DiffKind)
        ensures
            final(self)@ == (DiffModel { kind: k, ..old(self)@ }),
    {
        self.kind = k;
    }

    /// The type.
    pub fn type_(&self) -> (r: DiffType)
        ensures
            r == self@.type_,
    {
        self.type_
    }

    /// Set the type.
    pub fn set_type(&mut self, t: DiffType)
        ensures
            final(self)@ == (DiffModel { type_: t, ..old(self)@ }),
    {
        self.type_ = t;
    }

    /// The feature the difference concerns (empty for a whole object).
    pub fn attribute_name(&self) -> (r: &str)
        ensures
            r@ == self@.attribute_name,
    {
        self.attribute_name.as_str()
    }

    /// Set the feature the difference concerns.
    pub fn set_attribute_name(&mut self, s: &str)
        ensures
            final(self)@ == (DiffModel { attribute_name: s@, ..old(self)@ }),
    {
        self.attribute_name = s.to_string();
    }

    /// The left object.
    pub fn left(&self) -> (r: Option<usize>)
        ensures
            r == self@.left,
    {
        self.left
    }

    /// Set the left object.
    pub fn set_left(&mut self, o: Option<usize>)
        ensures
            final(self)@ == (DiffModel { left: o, ..old(self)@ }),
    {
        self.left = o;
    }

    /// The right object.
    pub fn right(&self) -> (r: Option<usize>)
        ensures
            r == self@.right,
    {
        self.right
    }

    /// Set the right object.
    pub fn set_right(&mut self, o: Option<usize>)
        ensures
            final(self)@ == (DiffModel { right: o, ..old(self)@ }),
    {
        self.right = o;
    }

    /// The side that produced the difference.
    pub fn source(&self) -> (r: DifferenceSource)
        ensures
            r == self@.source,
    {
        self.source
    }

    /// Set the side that produced the difference.
    pub fn set_source(&mut self, s: DifferenceSource)
        ensures
            final(self)@ == (DiffModel { source: s, ..old(self)@ }),
    {
        self.source = s;
    }

    /// The merge state.
    pub fn state(&self) -> (r: DifferenceState)
        ensures
            r == self@.state,
    {
        self.state
    }

    /// Set the merge state.
    pub fn set_state(&mut self, s: DifferenceState)
        ensures
            final(self)@ == (DiffModel { state: s, ..old(self)@ }),
    {
        self.state = s;
    }

    /// The old position (-1 when none).
    pub fn old_index(&self) -> (r: i32)
        ensures
            r == self@.old_index,
    {
        self.old_index
    }

    /// Set the old position.
    pub fn set_old_index(&mut self, i: i32)
        ensures
            final(self)@ == (DiffModel { old_index: i, ..old(self)@ }),
    {
        self.old_index = i;
    }

    /// The new position (-1 when none).
    pub fn new_index(&self) -> (r: i32)
        ensures
            r == self@.new_index,
    {
        self.new_index
    }

    /// Set the new position.
    pub fn set_new_index(&mut self, i: i32)
        ensures
            final(self)@ == (DiffModel { new_index: i, ..old(self)@ }),
    {
        self.new_index = i;
    }

    /// The old value.
    pub fn old_value(&self) -> (r: Option<&V>)
        ensures
            r == match self@.old_value {
                Some(v) => Some(&v),
                None => None::<&V>,
            },
    {
        self.old_value.as_ref()
    }

    /// Set the old value.
    pub fn set_old_value(&mut self, v: V)
        ensures
            final(self)@ == (DiffModel { old_value: Some(v), ..old(self)@ }),
    {
        self.old_value = Some(v);
    }

    /// The new value.
    pub fn new_value(&self) -> (r: Option<&V>)
        ensures
            r == match self@.new_value {
                Some(v) => Some(&v),
                None => None::<&V>,
            },
    {
        self.new_value.as_ref()
    }

    /// Set the new value.
    pub fn set_new_value(&mut self, v: V)
        ensures
            final(self)@ == (DiffModel { new_value: Some(v), ..old(self)@ }),
    {
        self.new_value = Some(v);
    }

    /// The match the difference belongs to (an index into its comparison).
    pub fn match_index(&self) -> (r: Option<usize>)
        ensures
            r == self@.match_index,
    {
        self.match_index
    }

    /// Set the match the difference belongs to.
    pub fn set_match_index(&mut self, i: Option<usize>)
        ensures
            final(self)@ == (DiffModel { match_index: i, ..old(self)@ }),
    {
        self.match_index = i;
    }
}

} // verus!

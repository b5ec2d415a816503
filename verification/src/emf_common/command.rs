//! Undoable commands: the `Command` contract, the stock commands built on it
//! (compound, strict compound, identity, unexecutable, wrapper), a command
//! stack with undo/redo and save tracking, the listener trait through which a
//! stack reports its changes, and the `AbortExecutionException` error.
use vstd::prelude::*;
use std::marker::PhantomData;
use std::rc::Rc;

verus! {

/// Label of a command that has none of its own.
pub const ABSTRACT_DEFAULT_LABEL: &'static str = "Application Action";
/// Description of a command that has none of its own.
pub const ABSTRACT_DEFAULT_DESCRIPTION: &'static str = "An application action";
/// Label of an empty compound command.
pub const COMPOUND_DEFAULT_LABEL: &'static str = "Compound Command";
/// Description of an empty compound command.
pub const COMPOUND_DEFAULT_DESCRIPTION: &'static str = "A compound command";
/// Label of the unexecutable command.
pub const UNEXECUTABLE_DEFAULT_LABEL: &'static str = "Unexecutable Command";
/// Description of the unexecutable command.
pub const UNEXECUTABLE_DEFAULT_DESCRIPTION: &'static str = "An unexecutable command";
/// Label of the identity command.
pub const IDENTITY_DEFAULT_LABEL: &'static str = "Identity Command";
/// Description of the identity command.
pub const IDENTITY_DEFAULT_DESCRIPTION: &'static str = "An identity command";
/// Label of a wrapper without a command.
pub const WRAPPER_DEFAULT_LABEL: &'static str = "Command Wrapper";
/// Description of a wrapper without a command.
pub const WRAPPER_DEFAULT_DESCRIPTION: &'static str = "A command that wraps another command";

/// Result index of a compound command that reports its last command's result.
pub const LAST_COMMAND_ALL: i32 = -2147483648i32;
/// Result index of a compound command that merges the results of all its commands.
pub const MERGE_COMMAND_ALL: i32 = 2147483647i32;

/// `dst` holds a clone of each value of `src`, in the same order.
pub open spec fn clones_of<V: Clone>(src: Seq<V>, dst: Seq<V>) -> bool {
    &&& dst.len() == src.len()
    &&& forall|i: int| 0 <= i < src.len() ==> cloned::<V>(#[trigger] src[i], dst[i])
}

/// `own` when it is not empty, else `fallback`.
pub open spec fn text_or(own: Seq<char>, fallback: Seq<char>) -> Seq<char> {
    if own.len() == 0 {
        fallback
    } else {
        own
    }
}

/// An undoable unit of work.
///
/// A command type that sets `obeys_command_spec` keeps the contracts below:
/// the spec functions name what its queries report, a `true` answer of
/// `can_execute` (which may prepare the command, and so takes `&mut self`)
/// makes it `runnable`, and `execute` and `redo` run only where it is
/// `runnable`, `undo` only where it is `undoable`. The spec functions' bodies
/// here are placeholders for command types that make no such claim: no
/// contract speaks of them unless `obeys_command_spec` holds.
///
/// A command type that also sets `obeys_answer_spec` says what `can_execute`
/// answers (`can_execute_answer`) and what the command is afterwards
/// (`prepared_as`); the placeholders here claim nothing.
pub trait Command: Sized {
    /// The values a command reports as its result and as its affected objects.
    type Value: Clone;

    /// The command keeps the contracts of this trait.
    open spec fn obeys_command_spec() -> bool {
        false
    }

    /// `execute` and `redo` may run.
    open spec fn runnable(&self) -> bool {
        false
    }

    /// `undo` may run; `can_undo` reports it.
    open spec fn undoable(&self) -> bool {
        false
    }

    /// The values `get_result` reports.
    open spec fn result_view(&self) -> Seq<Self::Value> {
        Seq::empty()
    }

    /// The values `get_affected_objects` reports.
    open spec fn affected_view(&self) -> Seq<Self::Value> {
        Seq::empty()
    }

    /// The label `get_label` reports.
    open spec fn label_view(&self) -> Seq<char> {
        Seq::empty()
    }

    /// The description `get_description` reports.
    open spec fn description_view(&self) -> Seq<char> {
        Seq::empty()
    }

    /// The command keeps the contract of `can_execute_answer` and
    /// `prepared_as`.
    open spec fn obeys_answer_spec() -> bool {
        false
    }

    /// The answer `can_execute` gives in this state.
    open spec fn can_execute_answer(&self) -> bool {
        false
    }

    /// `after` is what `can_execute` may leave of this command.
    open spec fn prepared_as(&self, after: Self) -> bool {
        true
    }

    /// Whether the command can execute; a `true` answer makes it runnable, and
    /// a runnable command stays runnable.
    fn can_execute(&mut self) -> (r: bool)
        ensures
            Self::obeys_command_spec() ==> (r ==> final(self).runnable()),
            Self::obeys_command_spec() ==> (old(self).runnable() ==> final(self).runnable()),
            Self::obeys_answer_spec() ==> r == old(self).can_execute_answer(),
            Self::obeys_answer_spec() ==> old(self).prepared_as(*final(self)),
    ;

    /// Performs the command.
    fn execute(&self)
        requires
            Self::obeys_command_spec() ==> self.runnable(),
    ;

    /// Whether the command can be undone.
    fn can_undo(&self) -> (r: bool)
        ensures
            Self::obeys_command_spec() ==> r == self.undoable(),
    ;

    /// Reverts the effect of `execute` or `redo`.
    fn undo(&self)
        requires
            Self::obeys_command_spec() ==> self.undoable(),
    ;

    /// Performs the command again after an `undo`.
    fn redo(&self)
        requires
            Self::obeys_command_spec() ==> self.runnable(),
    ;

    /// The values the command produced.
    fn get_result(&self) -> (r: Vec<Self::Value>)
        ensures
            Self::obeys_command_spec() ==> clones_of(self.result_view(), r@),
    ;

    /// The values the command affects.
    fn get_affected_objects(&self) -> (r: Vec<Self::Value>)
        ensures
            Self::obeys_command_spec() ==> clones_of(self.affected_view(), r@),
    ;

    /// A short label for the command.
    fn get_label(&self) -> (r: String)
        ensures
            Self::obeys_command_spec() ==> r@ == self.label_view(),
    ;

    /// A description of the command.
    fn get_description(&self) -> (r: String)
        ensures
            Self::obeys_command_spec() ==> r@ == self.description_view(),
    ;

    /// Releases what the command holds.
    fn dispose(&self);
}

/// Every command of `cs` is runnable.
pub open spec fn all_runnable<C: Command>(cs: Seq<C>) -> bool {
    forall|i: int| 0 <= i < cs.len() ==> #[trigger] cs[i].runnable()
}

/// Every command of `cs` is undoable.
pub open spec fn all_undoable<C: Command>(cs: Seq<C>) -> bool {
    forall|i: int| 0 <= i < cs.len() ==> #[trigger] cs[i].undoable()
}

/// The results of the commands of `cs`, one after the other.
pub open spec fn merged_results<C: Command>(cs: Seq<C>) -> Seq<C::Value>
    decreases cs.len(),
{
    if cs.len() == 0 {
        Seq::empty()
    } else {
        merged_results(cs.drop_last()) + cs.last().result_view()
    }
}

/// The affected objects of the commands of `cs`, one after the other.
pub open spec fn merged_affected<C: Command>(cs: Seq<C>) -> Seq<C::Value>
    decreases cs.len(),
{
    if cs.len() == 0 {
        Seq::empty()
    } else {
        merged_affected(cs.drop_last()) + cs.last().affected_view()
    }
}

/// The result of a compound of `cs` with result index `index`: nothing for an
/// empty compound; the last command's for `LAST_COMMAND_ALL`; all results in
/// order for `MERGE_COMMAND_ALL`; that command's for an index in range;
/// nothing otherwise.
pub open spec fn compound_result<C: Command>(cs: Seq<C>, index: i32) -> Seq<C::Value> {
    if cs.len() == 0 {
        Seq::empty()
    } else if index == LAST_COMMAND_ALL {
        cs.last().result_view()
    } else if index == MERGE_COMMAND_ALL {
        merged_results(cs)
    } else if 0 <= index < cs.len() {
        cs[index as int].result_view()
    } else {
        Seq::empty()
    }
}

/// The affected objects of a compound of `cs`, chosen as `compound_result`
/// chooses the result.
pub open spec fn compound_affected<C: Command>(cs: Seq<C>, index: i32) -> Seq<C::Value> {
    if cs.len() == 0 {
        Seq::empty()
    } else if index == LAST_COMMAND_ALL {
        cs.last().affected_view()
    } else if index == MERGE_COMMAND_ALL {
        merged_affected(cs)
    } else if 0 <= index < cs.len() {
        cs[index as int].affected_view()
    } else {
        Seq::empty()
    }
}

/// The label of a compound of `cs` with result index `index` and own label
/// `own`: its own label when it has one; otherwise the default for an empty
/// compound, the last command's label for the two "all" indices, the indexed
/// command's label for an index in range, and the default otherwise.
pub open spec fn compound_label<C: Command>(own: Seq<char>, cs: Seq<C>, index: i32) -> Seq<char> {
    if own.len() != 0 {
        own
    } else if cs.len() == 0 {
        COMPOUND_DEFAULT_LABEL@
    } else if index == LAST_COMMAND_ALL || index == MERGE_COMMAND_ALL {
        cs.last().label_view()
    } else if 0 <= index < cs.len() {
        cs[index as int].label_view()
    } else {
        COMPOUND_DEFAULT_LABEL@
    }
}

/// The description of a compound, chosen as `compound_label` chooses the label.
pub open spec fn compound_description<C: Command>(own: Seq<char>, cs: Seq<C>, index: i32) -> Seq<
    char,
> {
    if own.len() != 0 {
        own
    } else if cs.len() == 0 {
        COMPOUND_DEFAULT_DESCRIPTION@
    } else if index == LAST_COMMAND_ALL || index == MERGE_COMMAND_ALL {
        cs.last().description_view()
    } else if 0 <= index < cs.len() {
        cs[index as int].description_view()
    } else {
        COMPOUND_DEFAULT_DESCRIPTION@
    }
}

/// Clones of `a` followed by clones of `b` are clones of `a + b`.
pub proof fn lemma_clones_of_concat<V: Clone>(a: Seq<V>, x: Seq<V>, b: Seq<V>, y: Seq<V>)
    requires
        clones_of(a, x),
        clones_of(b, y),
    ensures
        clones_of(a + b, x + y),
{
    assert forall|i: int| 0 <= i < (a + b).len() implies cloned::<V>(#[trigger] (a + b)[i], (x + y)[i]) by {
        if i < a.len() {
            assert((a + b)[i] == a[i]);
            assert((x + y)[i] == x[i]);
        } else {
            assert((a + b)[i] == b[i - a.len()]);
            assert((x + y)[i] == y[i - a.len()]);
        }
    }
}

/// State shared by the commands that prepare once and then remember whether
/// they can execute, and that carry an optional label and description.
pub struct AbstractBase {
    /// `can_execute` has run its preparation.
    pub is_prepared: bool,
    /// The result of that preparation.
    pub is_executable: bool,
    /// The command's own label (empty: none).
    pub label: String,
    /// The command's own description (empty: none).
    pub description: String,
}

impl AbstractBase {
    /// An unprepared base with no label and no description.
    pub fn new() -> (r: Self)
        ensures
            !r.is_prepared,
            !r.is_executable,
            r.label@ == Seq::<char>::empty(),
            r.description@ == Seq::<char>::empty(),
    {
        AbstractBase {
            is_prepared: false,
            is_executable: false,
            label: String::new(),
            description: String::new(),
        }
    }

    /// The answer of `can_execute`: runs `prepare` the first time and returns
    /// its result, then returns that remembered result.
    pub fn can_execute_with<F: FnOnce() -> bool>(&mut self, prepare: F) -> (r: bool)
        requires
            !old(self).is_prepared ==> call_requires(prepare, ()),
        ensures
            old(self).is_prepared ==> r == old(self).is_executable && *final(self) == *old(self),
            !old(self).is_prepared ==> call_ensures(prepare, (), r),
            final(self).is_prepared,
            final(self).is_executable == r,
            final(self).label == old(self).label,
            final(self).description == old(self).description,
    {
        if !self.is_prepared {
            let ok = prepare();
            self.is_executable = ok;
            self.is_prepared = true;
        }
        self.is_executable
    }

    /// The label, or `fallback` when the label is empty.
    pub fn default_label(&self, fallback: &str) -> (r: String)
        ensures
            r@ == text_or(self.label@, fallback@),
    {
        if self.label.as_str().is_empty() {
            fallback.to_owned()
        } else {
            self.label.clone()
        }
    }

    /// The description, or `fallback` when the description is empty.
    pub fn default_description(&self, fallback: &str) -> (r: String)
        ensures
            r@ == text_or(self.description@, fallback@),
    {
        if self.description.as_str().is_empty() {
            fallback.to_owned()
        } else {
            self.description.clone()
        }
    }

    /// A command can be undone unless it says otherwise.
    pub fn default_can_undo(&self) -> (r: bool)
        ensures
            r,
    {
        true
    }

    /// A command reports no result unless it says otherwise.
    pub fn default_result<V>(&self) -> (r: Vec<V>)
        ensures
            r@ == Seq::<V>::empty(),
    {
        Vec::new()
    }
}

impl Default for AbstractBase {
    fn default() -> (r: Self)
        ensures
            !r.is_prepared,
            !r.is_executable,
            r.label@ == Seq::<char>::empty(),
            r.description@ == Seq::<char>::empty(),
    {
        AbstractBase::new()
    }
}

/// Clones each value of `values`, in order.
fn clone_values<V: Clone>(values: &Vec<V>) -> (r: Vec<V>)
    ensures
        clones_of(values@, r@),
{
    let mut out: Vec<V> = Vec::new();
    let mut i: usize = 0;
    while i < values.len()
        invariant
            i <= values@.len(),
            out@.len() == i,
            forall|k: int| 0 <= k < i ==> cloned::<V>(#[trigger] values@[k], out@[k]),
        decreases values@.len() - i,
    {
        let v = values[i].clone();
        out.push(v);
        i += 1;
    }
    out
}

/// A command that does nothing and can always be executed and undone; it may
/// carry a result.
pub struct IdentityCommand<V> {
    common: AbstractBase,
    result: Vec<V>,
}

impl<V: Clone> IdentityCommand<V> {
    /// The result the command reports.
    pub closed spec fn result_spec(&self) -> Seq<V> {
        self.result@
    }

    /// The command's own label.
    pub closed spec fn own_label(&self) -> Seq<char> {
        self.common.label@
    }

    fn make(result: Vec<V>, label: &str, description: &str) -> (r: Self)
        ensures
            r.result_spec() == result@,
            r.own_label() == label@,
            r.common.description@ == description@,
    {
        let mut common = AbstractBase::new();
        common.label = label.to_owned();
        common.description = description.to_owned();
        IdentityCommand { common, result }
    }

    /// The shared identity command: no result, default label.
    pub fn instance() -> (r: Self)
        ensures
            r.result_spec() == Seq::<V>::empty(),
            r.own_label() == Seq::<char>::empty(),
    {
        Self::new()
    }

    /// An identity command with no result.
    pub fn new() -> (r: Self)
        ensures
            r.result_spec() == Seq::<V>::empty(),
            r.own_label() == Seq::<char>::empty(),
    {
        proof {
            reveal_strlit("");
        }
        Self::build(Vec::new(), "", "")
    }

    /// An identity command whose result is `result`.
    pub fn with_result(result: Vec<V>) -> (r: Self)
        ensures
            r.result_spec() == result@,
            r.own_label() == Seq::<char>::empty(),
    {
        proof {
            reveal_strlit("");
        }
        Self::build(result, "", "")
    }

    /// An identity command whose result is the single value `result`.
    pub fn with_result_singleton(result: V) -> (r: Self)
        ensures
            r.result_spec() == seq![result],
            r.own_label() == Seq::<char>::empty(),
    {
        let mut v: Vec<V> = Vec::new();
        v.push(result);
        Self::with_result(v)
    }

    /// An identity command with no result and the given label.
    pub fn with_label(label: &str) -> (r: Self)
        ensures
            r.result_spec() == Seq::<V>::empty(),
            r.own_label() == label@,
    {
        proof {
            reveal_strlit("");
        }
        Self::build(Vec::new(), label, "")
    }

    fn build(result: Vec<V>, label: &str, description: &str) -> (r: Self)
        ensures
            r.result_spec() == result@,
            r.own_label() == label@,
            r.common.description@ == description@,
    {
        Self::make(result, label, description)
    }
}

impl<V: Clone> Command for IdentityCommand<V> {
    type Value = V;

    open spec fn obeys_command_spec() -> bool {
        true
    }

    open spec fn runnable(&self) -> bool {
        true
    }

    open spec fn undoable(&self) -> bool {
        true
    }

    open spec fn result_view(&self) -> Seq<V> {
        self.result_spec()
    }

    open spec fn affected_view(&self) -> Seq<V> {
        Seq::empty()
    }

    open spec fn label_view(&self) -> Seq<char> {
        text_or(self.own_label(), IDENTITY_DEFAULT_LABEL@)
    }

    open spec fn obeys_answer_spec() -> bool {
        true
    }

    open spec fn can_execute_answer(&self) -> bool {
        true
    }

    open spec fn prepared_as(&self, after: Self) -> bool {
        after == *self
    }

    closed spec fn description_view(&self) -> Seq<char> {
        text_or(self.common.description@, IDENTITY_DEFAULT_DESCRIPTION@)
    }

    fn can_execute(&mut self) -> (r: bool)
        ensures
            r,
    {
        true
    }

    fn execute(&self) {
    }

    fn can_undo(&self) -> (r: bool) {
        true
    }

    fn undo(&self) {
    }

    fn redo(&self) {
    }

    fn get_result(&self) -> (r: Vec<V>) {
        clone_values(&self.result)
    }

    fn get_affected_objects(&self) -> (r: Vec<V>) {
        Vec::new()
    }

    fn get_label(&self) -> (r: String) {
        self.common.default_label(IDENTITY_DEFAULT_LABEL)
    }

    fn get_description(&self) -> (r: String) {
        self.common.default_description(IDENTITY_DEFAULT_DESCRIPTION)
    }

    fn dispose(&self) {
    }
}

/// The command that can never execute; its `execute`, `undo` and `redo` may
/// not be called.
pub struct UnexecutableCommand<V> {
    common: AbstractBase,
    marker: PhantomData<V>,
}

impl<V: Clone> UnexecutableCommand<V> {
    /// The shared unexecutable command, with the default label and description.
    pub fn instance() -> (r: Self)
        ensures
            r.label_view() == UNEXECUTABLE_DEFAULT_LABEL@,
            r.description_view() == UNEXECUTABLE_DEFAULT_DESCRIPTION@,
    {
        let mut common = AbstractBase::new();
        common.label = UNEXECUTABLE_DEFAULT_LABEL.to_owned();
        common.description = UNEXECUTABLE_DEFAULT_DESCRIPTION.to_owned();
        proof {
            reveal_strlit("Unexecutable Command");
            reveal_strlit("An unexecutable command");
        }
        UnexecutableCommand { common, marker: PhantomData }
    }
}

impl<V: Clone> Command for UnexecutableCommand<V> {
    type Value = V;

    open spec fn obeys_command_spec() -> bool {
        true
    }

    open spec fn runnable(&self) -> bool {
        false
    }

    open spec fn undoable(&self) -> bool {
        false
    }

    open spec fn result_view(&self) -> Seq<V> {
        Seq::empty()
    }

    open spec fn affected_view(&self) -> Seq<V> {
        Seq::empty()
    }

    closed spec fn label_view(&self) -> Seq<char> {
        text_or(self.common.label@, UNEXECUTABLE_DEFAULT_LABEL@)
    }

    open spec fn obeys_answer_spec() -> bool {
        true
    }

    open spec fn can_execute_answer(&self) -> bool {
        false
    }

    open spec fn prepared_as(&self, after: Self) -> bool {
        after == *self
    }

    closed spec fn description_view(&self) -> Seq<char> {
        text_or(self.common.description@, UNEXECUTABLE_DEFAULT_DESCRIPTION@)
    }

    fn can_execute(&mut self) -> (r: bool)
        ensures
            !r,
    {
        false
    }

    fn execute(&self) {
        let missing: Option<()> = None;
        missing.expect("Method not implemented: UnexecutableCommand.execute()");
    }

    fn can_undo(&self) -> (r: bool) {
        false
    }

    fn undo(&self) {
        let missing: Option<()> = None;
        missing.expect("Method not implemented: AbstractCommand.undo()");
    }

    fn redo(&self) {
        let missing: Option<()> = None;
        missing.expect("Method not implemented: UnexecutableCommand.redo()");
    }

    fn get_result(&self) -> (r: Vec<V>) {
        Vec::new()
    }

    fn get_affected_objects(&self) -> (r: Vec<V>) {
        Vec::new()
    }

    fn get_label(&self) -> (r: String) {
        self.common.default_label(UNEXECUTABLE_DEFAULT_LABEL)
    }

    fn get_description(&self) -> (r: String) {
        self.common.default_description(UNEXECUTABLE_DEFAULT_DESCRIPTION)
    }

    fn dispose(&self) {
    }
}


/// Every command of `cs` before position `k` answers `true` to
/// `can_execute`.
pub open spec fn answered_before<C: Command>(cs: Seq<C>, k: int) -> bool {
    forall|j: int| 0 <= j < k ==> #[trigger] cs[j].can_execute_answer()
}

/// Every command of `cs` answers `true` to `can_execute`.
pub open spec fn all_answer<C: Command>(cs: Seq<C>) -> bool {
    answered_before(cs, cs.len() as int)
}

/// The command at `k` of `after` is what asking `cs` in order, up to the
/// first refusal, leaves there: prepared when it was asked, unchanged
/// otherwise.
pub open spec fn asked_at<C: Command>(cs: Seq<C>, after: Seq<C>, k: int) -> bool {
    if answered_before(cs, k) {
        cs[k].prepared_as(after[k])
    } else {
        after[k] == cs[k]
    }
}

/// `after` is what asking the commands of `cs` in order, up to the first
/// refusal, leaves of them.
pub open spec fn asked<C: Command>(cs: Seq<C>, after: Seq<C>) -> bool {
    &&& after.len() == cs.len()
    &&& forall|k: int| 0 <= k < cs.len() ==> #[trigger] asked_at(cs, after, k)
}

/// Asks each command of `cs`, in order, whether it can execute, stopping at
/// the first that cannot; `true` when `cs` is not empty and all can. The
/// commands come back in the same order.
fn ask_each_can_execute<C: Command>(commands: Vec<C>) -> (r: (bool, Vec<C>))
    ensures
        r.1@.len() == commands@.len(),
        C::obeys_answer_spec() ==> r.0 == (commands@.len() > 0 && all_answer(commands@)),
        C::obeys_answer_spec() ==> asked(commands@, r.1@),
        r.0 ==> commands@.len() > 0,
        C::obeys_command_spec() ==> (r.0 ==> all_runnable(r.1@)),
        commands@.len() == 0 ==> !r.0,
        C::obeys_command_spec() ==> (all_runnable(commands@) ==> all_runnable(r.1@)),
{
    let mut cs = commands;
    let n = cs.len();
    if n == 0 {
        return (false, cs);
    }
    let ghost start = cs@;
    let mut i: usize = 0;
    while i < n
        invariant
            0 < n == cs@.len() == start.len(),
            start == commands@,
            i <= n,
            C::obeys_command_spec() ==> forall|k: int| 0 <= k < i ==> #[trigger] cs@[k].runnable(),
            forall|k: int| i <= k < n ==> #[trigger] cs@[k] == start[k],
            C::obeys_command_spec() ==> forall|k: int|
                0 <= k < n && start[k].runnable() ==> #[trigger] cs@[k].runnable(),
            C::obeys_answer_spec() ==> answered_before(start, i as int),
            C::obeys_answer_spec() ==> forall|k: int| 0 <= k < i ==> #[trigger] start[k].prepared_as(cs@[k]),
        decreases n - i,
    {
        let ghost before = cs@;
        let ok = cs[i].can_execute();
        proof {
            assert(before[i as int] == start[i as int]);
            if C::obeys_answer_spec() {
                assert forall|k: int| 0 <= k < n && k != i implies #[trigger] cs@[k] == before[k] by {}
            }
        }
        if !ok {
            proof {
                if C::obeys_answer_spec() {
                    assert(!answered_before(start, n as int)) by {
                        assert(!start[i as int].can_execute_answer());
                    }
                    assert forall|k: int| 0 <= k < start.len() implies #[trigger] asked_at(start, cs@, k) by {
                        if k < i {
                            assert(answered_before(start, k)) by {
                                assert forall|j: int| 0 <= j < k implies #[trigger] start[j].can_execute_answer() by {
                                    assert(answered_before(start, i as int));
                                }
                            }
                        } else if k > i {
                            assert(!answered_before(start, k)) by {
                                assert(!start[i as int].can_execute_answer());
                            }
                        }
                    }
                }
            }
            return (false, cs);
        }
        proof {
            if C::obeys_answer_spec() {
                assert forall|j: int| 0 <= j < i + 1 implies #[trigger] start[j].can_execute_answer() by {
                    if j < i {
                        assert(answered_before(start, i as int));
                    }
                }
            }
        }
        i += 1;
    }
    proof {
        if C::obeys_answer_spec() {
            assert forall|k: int| 0 <= k < start.len() implies #[trigger] asked_at(start, cs@, k) by {
                assert(answered_before(start, k)) by {
                    assert forall|j: int| 0 <= j < k implies #[trigger] start[j].can_execute_answer() by {
                        assert(answered_before(start, n as int));
                    }
                }
            }
        }
    }
    (true, cs)
}

/// A command made of commands: it can execute when it holds at least one
/// command and each of them can; it executes and redoes them in order and
/// undoes them in reverse order.
pub struct CompoundCommand<C: Command> {
    common: AbstractBase,
    commands: Vec<C>,
    result_index: i32,
}

impl<C: Command> CompoundCommand<C> {
    /// Once prepared with a positive answer, every command is runnable.
    #[verifier::type_invariant]
    closed spec fn prepared_commands_runnable(self) -> bool {
        self.common.is_prepared && self.common.is_executable && C::obeys_command_spec()
            ==> all_runnable(self.commands@)
    }

    /// The commands, in order.
    pub closed spec fn commands(&self) -> Seq<C> {
        self.commands@
    }

    /// Which commands the result, label and description come from.
    pub closed spec fn result_index_spec(&self) -> i32 {
        self.result_index
    }

    /// `can_execute` has prepared the compound.
    pub closed spec fn is_prepared_spec(&self) -> bool {
        self.common.is_prepared
    }

    /// The compound's own label (empty: none).
    pub closed spec fn own_label(&self) -> Seq<char> {
        self.common.label@
    }

    /// The compound's own description (empty: none).
    pub closed spec fn own_description(&self) -> Seq<char> {
        self.common.description@
    }

    fn intern(result_index: i32, label: &str, description: &str, initial: Vec<C>) -> (r: Self)
        ensures
            r.commands() == initial@,
            r.result_index_spec() == result_index,
            !r.is_prepared_spec(),
            r.own_label() == label@,
            r.own_description() == description@,
    {
        let mut common = AbstractBase::new();
        common.label = label.to_owned();
        common.description = description.to_owned();
        CompoundCommand { common, commands: initial, result_index }
    }

    /// An empty compound that merges the results of its commands.
    pub fn new() -> (r: Self)
        ensures
            r.commands() == Seq::<C>::empty(),
            r.result_index_spec() == MERGE_COMMAND_ALL,
            !r.is_prepared_spec(),
            r.own_label() == Seq::<char>::empty(),
            r.own_description() == Seq::<char>::empty(),
    {
        proof {
            reveal_strlit("");
        }
        Self::intern(MERGE_COMMAND_ALL, "", "", Vec::new())
    }

    /// An empty compound with the given result index.
    pub fn with_result_index(result_index: i32) -> (r: Self)
        ensures
            r.commands() == Seq::<C>::empty(),
            r.result_index_spec() == result_index,
            !r.is_prepared_spec(),
            r.own_label() == Seq::<char>::empty(),
            r.own_description() == Seq::<char>::empty(),
    {
        proof {
            reveal_strlit("");
        }
        Self::intern(result_index, "", "", Vec::new())
    }

    /// An empty merging compound with the given label.
    pub fn with_label(label: &str) -> (r: Self)
        ensures
            r.commands() == Seq::<C>::empty(),
            r.result_index_spec() == MERGE_COMMAND_ALL,
            !r.is_prepared_spec(),
            r.own_label() == label@,
            r.own_description() == Seq::<char>::empty(),
    {
        proof {
            reveal_strlit("");
        }
        Self::intern(MERGE_COMMAND_ALL, label, "", Vec::new())
    }

    /// A merging compound holding `commands`.
    pub fn from_commands(commands: Vec<C>) -> (r: Self)
        ensures
            r.commands() == commands@,
            r.result_index_spec() == MERGE_COMMAND_ALL,
            !r.is_prepared_spec(),
            r.own_label() == Seq::<char>::empty(),
            r.own_description() == Seq::<char>::empty(),
    {
        proof {
            reveal_strlit("");
        }
        Self::intern(MERGE_COMMAND_ALL, "", "", commands)
    }

    /// The compound holds no command.
    pub fn is_empty(&self) -> (r: bool)
        ensures
            r == (self.commands().len() == 0),
    {
        self.commands.len() == 0
    }

    /// The number of commands.
    pub fn command_count(&self) -> (r: usize)
        ensures
            r == self.commands().len(),
    {
        self.commands.len()
    }

    /// The result index.
    pub fn get_result_index(&self) -> (r: i32)
        ensures
            r == self.result_index_spec(),
    {
        self.result_index
    }

    /// Asks each command, in order, whether it can execute, stopping at the
    /// first that cannot; `true` when there is at least one command and all can.
    pub fn prepare_internal(&mut self) -> (r: bool)
        ensures
            r ==> final(self).commands().len() > 0,
            C::obeys_command_spec() ==> (r ==> all_runnable(final(self).commands())),
            old(self).commands().len() == 0 ==> !r,
            final(self).commands().len() == old(self).commands().len(),
            C::obeys_command_spec() ==> (all_runnable(old(self).commands()) ==> all_runnable(
                final(self).commands(),
            )),
            final(self).result_index_spec() == old(self).result_index_spec(),
            final(self).is_prepared_spec() == old(self).is_prepared_spec(),
            final(self).own_label() == old(self).own_label(),
            final(self).own_description() == old(self).own_description(),
            C::obeys_answer_spec() ==> r == (old(self).commands().len() > 0 && all_answer(
                old(self).commands(),
            )),
            C::obeys_answer_spec() ==> asked(old(self).commands(), final(self).commands()),
    {
        proof {
            use_type_invariant(&*self);
        }
        let cs = self.take_commands();
        let (ok, cs) = ask_each_can_execute(cs);
        self.commands = cs;
        ok
    }

    /// Moves the commands out, leaving none.
    fn take_commands(&mut self) -> (r: Vec<C>)
        ensures
            r@ == old(self).commands(),
            final(self).commands() == Seq::<C>::empty(),
            final(self).result_index_spec() == old(self).result_index_spec(),
            final(self).common == old(self).common,
    {
        let mut cs: Vec<C> = Vec::new();
        std::mem::swap(&mut cs, &mut self.commands);
        cs
    }

    /// Adds `command` at the end; the compound may not have been prepared.
    pub fn append(&mut self, command: C)
        requires
            !old(self).is_prepared_spec(),
        ensures
            final(self).commands() == old(self).commands().push(command),
            final(self).result_index_spec() == old(self).result_index_spec(),
            final(self).is_prepared_spec() == old(self).is_prepared_spec(),
            final(self).own_label() == old(self).own_label(),
            final(self).own_description() == old(self).own_description(),
    {
        let mut cs = self.take_commands();
        cs.push(command);
        self.commands = cs;
    }

    /// Adds `command` at the end when it can execute (and returns `true`);
    /// otherwise disposes of it and returns `false`.
    pub fn append_if_can_execute(&mut self, command: C) -> (r: bool)
        ensures
            r ==> final(self).commands().len() == old(self).commands().len() + 1
                && final(self).commands().drop_last() == old(self).commands(),
            C::obeys_command_spec() ==> (r ==> final(self).commands().last().runnable()),
            !r ==> final(self).commands() == old(self).commands(),
            final(self).result_index_spec() == old(self).result_index_spec(),
            final(self).is_prepared_spec() == old(self).is_prepared_spec(),
            final(self).own_label() == old(self).own_label(),
            final(self).own_description() == old(self).own_description(),
            C::obeys_answer_spec() ==> r == command.can_execute_answer(),
            C::obeys_answer_spec() ==> (r ==> command.prepared_as(final(self).commands().last())),
    {
        proof {
            use_type_invariant(&*self);
        }
        let mut c = command;
        if c.can_execute() {
            let mut cs = self.take_commands();
            cs.push(c);
            self.commands = cs;
            true
        } else {
            c.dispose();
            false
        }
    }

    /// Executes `command` and adds it at the end when it can execute (and
    /// returns `true`); otherwise disposes of it and returns `false`.
    pub fn append_and_execute(&mut self, command: C) -> (r: bool)
        ensures
            r ==> final(self).commands().len() == old(self).commands().len() + 1
                && final(self).commands().drop_last() == old(self).commands(),
            C::obeys_command_spec() ==> (r ==> final(self).commands().last().runnable()),
            !r ==> final(self).commands() == old(self).commands(),
            final(self).result_index_spec() == old(self).result_index_spec(),
            final(self).is_prepared_spec() == old(self).is_prepared_spec(),
            final(self).own_label() == old(self).own_label(),
            final(self).own_description() == old(self).own_description(),
            C::obeys_answer_spec() ==> r == command.can_execute_answer(),
            C::obeys_answer_spec() ==> (r ==> command.prepared_as(final(self).commands().last())),
    {
        proof {
            use_type_invariant(&*self);
        }
        let mut c = command;
        if c.can_execute() {
            c.execute();
            let mut cs = self.take_commands();
            cs.push(c);
            self.commands = cs;
            true
        } else {
            c.dispose();
            false
        }
    }

    /// The simplest command doing the same: the unexecutable command for an
    /// empty compound, the single command of a one-command compound, and the
    /// compound itself otherwise.
    pub fn unwrap(self) -> (r: UnwrappedCommand<C>)
        ensures
            self.commands().len() == 0 ==> r is Unexecutable,
            self.commands().len() == 1 ==> r == UnwrappedCommand::Single(self.commands()[0]),
            self.commands().len() > 1 ==> r == UnwrappedCommand::Compound(self),
    {
        let n = self.commands.len();
        if n == 0 {
            self.dispose();
            UnwrappedCommand::Unexecutable(UnexecutableCommand::instance())
        } else if n == 1 {
            let mut me = self;
            let mut cs = me.take_commands();
            let c = cs.remove(0);
            me.dispose();
            UnwrappedCommand::Single(c)
        } else {
            UnwrappedCommand::Compound(self)
        }
    }
}

impl<C: Command> Command for CompoundCommand<C> {
    type Value = C::Value;

    open spec fn obeys_command_spec() -> bool {
        C::obeys_command_spec()
    }

    open spec fn runnable(&self) -> bool {
        all_runnable(self.commands())
    }

    open spec fn undoable(&self) -> bool {
        all_undoable(self.commands())
    }

    open spec fn result_view(&self) -> Seq<C::Value> {
        compound_result(self.commands(), self.result_index_spec())
    }

    open spec fn affected_view(&self) -> Seq<C::Value> {
        compound_affected(self.commands(), self.result_index_spec())
    }

    open spec fn label_view(&self) -> Seq<char> {
        compound_label(self.own_label(), self.commands(), self.result_index_spec())
    }

    open spec fn description_view(&self) -> Seq<char> {
        compound_description(self.own_description(), self.commands(), self.result_index_spec())
    }

    open spec fn obeys_answer_spec() -> bool {
        C::obeys_answer_spec()
    }

    /// Once prepared, the remembered answer; before, whether there is a
    /// command and each of them answers `true`.
    closed spec fn can_execute_answer(&self) -> bool {
        if self.common.is_prepared {
            self.common.is_executable
        } else {
            self.commands@.len() > 0 && all_answer(self.commands@)
        }
    }

    /// A prepared compound stays as it is; an unprepared one becomes prepared,
    /// remembers its answer, and has its commands asked in order.
    closed spec fn prepared_as(&self, after: Self) -> bool {
        if self.common.is_prepared {
            after == *self
        } else {
            &&& after.common.is_prepared
            &&& after.common.is_executable == self.can_execute_answer()
            &&& after.common.label@ == self.common.label@
            &&& after.common.description@ == self.common.description@
            &&& after.result_index == self.result_index
            &&& asked(self.commands@, after.commands@)
        }
    }

    fn can_execute(&mut self) -> (r: bool)
        ensures
            old(self).is_prepared_spec() ==> final(self).commands() == old(self).commands(),
            !old(self).is_prepared_spec() ==> (r ==> final(self).commands().len() > 0),
            final(self).is_prepared_spec(),
            final(self).commands().len() == old(self).commands().len(),
            final(self).result_index_spec() == old(self).result_index_spec(),
            final(self).own_label() == old(self).own_label(),
            final(self).own_description() == old(self).own_description(),
    {
        proof {
            use_type_invariant(&*self);
        }
        if !self.common.is_prepared {
            let ok = self.prepare_internal();
            self.common.is_executable = ok;
            self.common.is_prepared = true;
        }
        self.common.is_executable
    }

    fn execute(&self) {
        let n = self.commands.len();
        let mut i: usize = 0;
        while i < n
            invariant
                n == self.commands@.len(),
                i <= n,
                C::obeys_command_spec() ==> all_runnable(self.commands@),
            decreases n - i,
        {
            self.commands[i].execute();
            i += 1;
        }
    }

    fn can_undo(&self) -> (r: bool) {
        let n = self.commands.len();
        let mut i: usize = 0;
        while i < n
            invariant
                n == self.commands@.len(),
                i <= n,
                C::obeys_command_spec() ==> forall|k: int|
                    0 <= k < i ==> #[trigger] self.commands@[k].undoable(),
            decreases n - i,
        {
            if !self.commands[i].can_undo() {
                return false;
            }
            i += 1;
        }
        true
    }

    fn undo(&self) {
        let mut i: usize = self.commands.len();
        while i > 0
            invariant
                i <= self.commands@.len(),
                C::obeys_command_spec() ==> all_undoable(self.commands@),
            decreases i,
        {
            i -= 1;
            self.commands[i].undo();
        }
    }

    fn redo(&self) {
        let n = self.commands.len();
        let mut i: usize = 0;
        while i < n
            invariant
                n == self.commands@.len(),
                i <= n,
                C::obeys_command_spec() ==> all_runnable(self.commands@),
            decreases n - i,
        {
            self.commands[i].redo();
            i += 1;
        }
    }

    fn get_result(&self) -> (r: Vec<C::Value>) {
        let n = self.commands.len();
        if n == 0 {
            return Vec::new();
        }
        if self.result_index == LAST_COMMAND_ALL {
            self.commands[n - 1].get_result()
        } else if self.result_index == MERGE_COMMAND_ALL {
            let mut out: Vec<C::Value> = Vec::new();
            let mut i: usize = 0;
            while i < n
                invariant
                    n == self.commands@.len(),
                    i <= n,
                    C::obeys_command_spec() ==> clones_of(
                        merged_results(self.commands@.take(i as int)),
                        out@,
                    ),
                decreases n - i,
            {
                let mut part = self.commands[i].get_result();
                proof {
                    let cs = self.commands@;
                    assert(cs.take(i + 1).drop_last() =~= cs.take(i as int));
                    assert(cs.take(i + 1).last() == cs[i as int]);
                    if C::obeys_command_spec() {
                        lemma_clones_of_concat(
                            merged_results(cs.take(i as int)),
                            out@,
                            cs[i as int].result_view(),
                            part@,
                        );
                    }
                }
                out.append(&mut part);
                i += 1;
            }
            proof {
                assert(self.commands@.take(n as int) =~= self.commands@);
            }
            out
        } else if 0 <= self.result_index && (self.result_index as usize) < n {
            self.commands[self.result_index as usize].get_result()
        } else {
            Vec::new()
        }
    }

    fn get_affected_objects(&self) -> (r: Vec<C::Value>) {
        let n = self.commands.len();
        if n == 0 {
            return Vec::new();
        }
        if self.result_index == LAST_COMMAND_ALL {
            self.commands[n - 1].get_affected_objects()
        } else if self.result_index == MERGE_COMMAND_ALL {
            let mut out: Vec<C::Value> = Vec::new();
            let mut i: usize = 0;
            while i < n
                invariant
                    n == self.commands@.len(),
                    i <= n,
                    C::obeys_command_spec() ==> clones_of(
                        merged_affected(self.commands@.take(i as int)),
                        out@,
                    ),
                decreases n - i,
            {
                let mut part = self.commands[i].get_affected_objects();
                proof {
                    let cs = self.commands@;
                    assert(cs.take(i + 1).drop_last() =~= cs.take(i as int));
                    assert(cs.take(i + 1).last() == cs[i as int]);
                    if C::obeys_command_spec() {
                        lemma_clones_of_concat(
                            merged_affected(cs.take(i as int)),
                            out@,
                            cs[i as int].affected_view(),
                            part@,
                        );
                    }
                }
                out.append(&mut part);
                i += 1;
            }
            proof {
                assert(self.commands@.take(n as int) =~= self.commands@);
            }
            out
        } else if 0 <= self.result_index && (self.result_index as usize) < n {
            self.commands[self.result_index as usize].get_affected_objects()
        } else {
            Vec::new()
        }
    }

    fn get_label(&self) -> (r: String) {
        if !self.common.label.as_str().is_empty() {
            return self.common.label.clone();
        }
        let n = self.commands.len();
        if n == 0 {
            return COMPOUND_DEFAULT_LABEL.to_owned();
        }
        if self.result_index == LAST_COMMAND_ALL || self.result_index == MERGE_COMMAND_ALL {
            return self.commands[n - 1].get_label();
        }
        if 0 <= self.result_index && (self.result_index as usize) < n {
            return self.commands[self.result_index as usize].get_label();
        }
        COMPOUND_DEFAULT_LABEL.to_owned()
    }

    fn get_description(&self) -> (r: String) {
        if !self.common.description.as_str().is_empty() {
            return self.common.description.clone();
        }
        let n = self.commands.len();
        if n == 0 {
            return COMPOUND_DEFAULT_DESCRIPTION.to_owned();
        }
        if self.result_index == LAST_COMMAND_ALL || self.result_index == MERGE_COMMAND_ALL {
            return self.commands[n - 1].get_description();
        }
        if 0 <= self.result_index && (self.result_index as usize) < n {
            return self.commands[self.result_index as usize].get_description();
        }
        COMPOUND_DEFAULT_DESCRIPTION.to_owned()
    }

    fn dispose(&self) {
        let n = self.commands.len();
        let mut i: usize = 0;
        while i < n
            invariant
                n == self.commands@.len(),
                i <= n,
            decreases n - i,
        {
            self.commands[i].dispose();
            i += 1;
        }
    }
}

/// A call a strict compound makes on one of its commands, by position.
#[derive(Debug, Clone, Copy, PartialEq, Eq)]
pub enum CommandCall {
    /// `execute` on the command at the position.
    Execute(usize),
    /// `redo` on the command at the position.
    Redo(usize),
    /// `undo` on the command at the position.
    Undo(usize),
}

/// The calls that run the first `m` commands forward: those among the first
/// `done` ran before and are redone, the others are executed.
pub open spec fn forward_calls(done: nat, m: nat) -> Seq<CommandCall> {
    Seq::new(m, |j: int| if j < done { CommandCall::Redo(j as usize) } else { CommandCall::Execute(j as usize) })
}

/// The calls that undo, from position `hi - 1` down to `lo`, each command of
/// `cs` there that can be undone.
pub open spec fn undo_calls<C: Command>(cs: Seq<C>, hi: int, lo: int) -> Seq<CommandCall>
    decreases hi - lo,
{
    if lo >= hi {
        Seq::empty()
    } else {
        undo_calls(cs, hi, lo + 1) + if cs[lo].undoable() {
            seq![CommandCall::Undo(lo as usize)]
        } else {
            Seq::empty()
        }
    }
}

/// The calls of a strict preparation that stops at `m` (see `strict_stop`),
/// with `done` commands executed before: the first `m` run forward, and a
/// pessimistic compound then undoes, in reverse order, every executed command
/// that can be undone.
pub open spec fn strict_calls<C: Command>(done: nat, m: nat, pessimistic: bool, after: Seq<C>) -> Seq<CommandCall> {
    forward_calls(done, m) + if pessimistic {
        undo_calls(after, if m > done { m as int } else { done as int }, 0)
    } else {
        Seq::empty()
    }
}

/// The command types whose `can_execute` and `can_undo` answers the
/// contracts state.
pub open spec fn answers_stated<C: Command>() -> bool {
    C::obeys_answer_spec() && C::obeys_command_spec()
}

/// A command passes a strict preparation step: it answers `true` to
/// `can_execute` (asked in the state `before`) and can then be undone (in the
/// state `after` that `can_execute` left).
pub open spec fn strict_passes<C: Command>(before: C, after: C) -> bool {
    before.can_execute_answer() && after.undoable()
}

/// Every command of `start` before position `k` passed its step, `after`
/// holding the commands as preparation left them.
pub open spec fn strict_reached<C: Command>(start: Seq<C>, after: Seq<C>, k: int) -> bool {
    forall|j: int| 0 <= j < k ==> #[trigger] strict_passes(start[j], after[j])
}

/// `after` is what a strict preparation, asking the commands of `start` in
/// order until one fails its step, leaves of them: a command that was reached
/// was asked and is prepared; the others are unchanged.
pub open spec fn strict_asked<C: Command>(start: Seq<C>, after: Seq<C>) -> bool {
    &&& after.len() == start.len()
    &&& forall|k: int|
        0 <= k < start.len() ==> #[trigger] strict_asked_at(start, after, k)
}

/// The command at `k` after a strict preparation.
pub open spec fn strict_asked_at<C: Command>(start: Seq<C>, after: Seq<C>, k: int) -> bool {
    if strict_reached(start, after, k) {
        start[k].prepared_as(after[k])
    } else {
        after[k] == start[k]
    }
}

/// The answer of a strict preparation: there is a command, each but the last
/// passes its step, and the last answers `true` to `can_execute`.
pub open spec fn strict_answer<C: Command>(start: Seq<C>, after: Seq<C>) -> bool {
    start.len() > 0 && strict_reached(start, after, start.len() - 1) && start[start.len()
        - 1].can_execute_answer()
}

/// `m` is where a strict preparation stops executing: the first command
/// before the last that fails its step, or the last command.
pub open spec fn strict_stop<C: Command>(start: Seq<C>, after: Seq<C>, m: int) -> bool {
    &&& 0 <= m < start.len()
    &&& strict_reached(start, after, m)
    &&& m < start.len() - 1 ==> !strict_passes(start[m], after[m])
}

/// After a strict preparation that stopped at `i` (every command before it
/// passed its step and was asked, the command at `i` was asked, the rest are
/// unchanged), the commands are as `strict_asked` says.
proof fn lemma_strict_asked_prefix<C: Command>(start: Seq<C>, after: Seq<C>, i: int)
    requires
        0 <= i < start.len() == after.len(),
        strict_reached(start, after, i),
        forall|k: int| 0 <= k < i ==> #[trigger] start[k].prepared_as(after[k]),
        start[i].prepared_as(after[i]),
        i < start.len() - 1 ==> !strict_passes(start[i], after[i]),
        forall|k: int| i < k < start.len() ==> #[trigger] after[k] == start[k],
    ensures
        strict_asked(start, after),
{
    assert forall|k: int| 0 <= k < start.len() implies #[trigger] strict_asked_at(start, after, k) by {
        if k <= i {
            assert(strict_reached(start, after, k)) by {
                assert forall|j: int| 0 <= j < k implies #[trigger] strict_passes(start[j], after[j]) by {
                    assert(strict_reached(start, after, i));
                }
            }
        } else {
            assert(!strict_reached(start, after, k)) by {
                assert(!strict_passes(start[i], after[i]));
            }
        }
    }
}

/// A compound command that prepares by executing its commands one after the
/// other (all but the last), so that each is asked whether it can execute in
/// the state the previous ones leave; in pessimistic mode it undoes them again
/// after preparing and runs them all on `execute`.
pub struct StrictCompoundCommand<C: Command> {
    common: AbstractBase,
    commands: Vec<C>,
    is_undoable: bool,
    is_pessimistic: bool,
    executed: usize,
    calls: Ghost<Seq<CommandCall>>,
}

impl<C: Command> StrictCompoundCommand<C> {
    /// Once prepared with a positive answer, every command is runnable; the
    /// leading executed commands are commands of the compound.
    #[verifier::type_invariant]
    closed spec fn strict_inv(self) -> bool {
        &&& self.common.is_prepared && self.common.is_executable && C::obeys_command_spec()
            ==> all_runnable(self.commands@)
        &&& self.executed <= self.commands@.len()
    }

    /// The commands, in order.
    pub closed spec fn commands(&self) -> Seq<C> {
        self.commands@
    }

    /// How many leading commands have been executed.
    pub closed spec fn executed_count(&self) -> nat {
        self.executed as nat
    }

    /// The calls the compound has made on its commands while preparing, in
    /// order.
    pub closed spec fn calls(&self) -> Seq<CommandCall> {
        self.calls@
    }

    /// `can_execute` has prepared the compound.
    pub closed spec fn is_prepared_spec(&self) -> bool {
        self.common.is_prepared
    }

    /// The pessimistic flag.
    pub closed spec fn is_pessimistic_spec(&self) -> bool {
        self.is_pessimistic
    }

    /// The undoable flag.
    pub closed spec fn is_undoable_spec(&self) -> bool {
        self.is_undoable
    }

    /// The compound's own label (empty: none).
    pub closed spec fn own_label(&self) -> Seq<char> {
        self.common.label@
    }

    /// The compound's own description (empty: none).
    pub closed spec fn own_description(&self) -> Seq<char> {
        self.common.description@
    }

    /// An empty, optimistic strict compound.
    pub fn new() -> (r: Self)
        ensures
            r.commands() == Seq::<C>::empty(),
            r.executed_count() == 0,
            !r.is_prepared_spec(),
            !r.is_pessimistic_spec(),
            !r.is_undoable_spec(),
            r.own_label() == Seq::<char>::empty(),
            r.own_description() == Seq::<char>::empty(),
    {
        StrictCompoundCommand {
            common: AbstractBase::new(),
            commands: Vec::new(),
            is_undoable: false,
            is_pessimistic: false,
            executed: 0,
            calls: Ghost(Seq::empty()),
        }
    }

    /// An empty, optimistic strict compound with the given label.
    pub fn new_with_label(label: &str) -> (r: Self)
        ensures
            r.commands() == Seq::<C>::empty(),
            r.executed_count() == 0,
            !r.is_prepared_spec(),
            !r.is_pessimistic_spec(),
            !r.is_undoable_spec(),
            r.own_label() == label@,
            r.own_description() == Seq::<char>::empty(),
    {
        let mut common = AbstractBase::new();
        common.label = label.to_owned();
        StrictCompoundCommand {
            common,
            commands: Vec::new(),
            is_undoable: false,
            is_pessimistic: false,
            executed: 0,
            calls: Ghost(Seq::empty()),
        }
    }

    /// Whether the compound is pessimistic.
    pub fn is_pessimistic(&self) -> (r: bool)
        ensures
            r == self.is_pessimistic_spec(),
    {
        self.is_pessimistic
    }

    /// Sets the pessimistic flag.
    pub fn set_is_pessimistic(&mut self, v: bool)
        ensures
            final(self).is_pessimistic_spec() == v,
            final(self).commands() == old(self).commands(),
            final(self).executed_count() == old(self).executed_count(),
            final(self).is_prepared_spec() == old(self).is_prepared_spec(),
            final(self).is_undoable_spec() == old(self).is_undoable_spec(),
            final(self).own_label() == old(self).own_label(),
            final(self).own_description() == old(self).own_description(),
    {
        proof {
            use_type_invariant(&*self);
        }
        self.is_pessimistic = v;
    }

    /// Whether the compound can be undone, as its preparation found.
    pub fn is_undoable(&self) -> (r: bool)
        ensures
            r == self.is_undoable_spec(),
    {
        self.is_undoable
    }

    /// Sets the undoable flag.
    pub fn set_is_undoable(&mut self, v: bool)
        ensures
            final(self).is_undoable_spec() == v,
            final(self).commands() == old(self).commands(),
            final(self).executed_count() == old(self).executed_count(),
            final(self).is_prepared_spec() == old(self).is_prepared_spec(),
            final(self).is_pessimistic_spec() == old(self).is_pessimistic_spec(),
            final(self).own_label() == old(self).own_label(),
            final(self).own_description() == old(self).own_description(),
    {
        proof {
            use_type_invariant(&*self);
        }
        self.is_undoable = v;
    }

    /// The number of commands.
    pub fn command_count(&self) -> (r: usize)
        ensures
            r == self.commands().len(),
    {
        self.commands.len()
    }

    /// Moves the commands out, leaving none and no executed command.
    fn take_commands(&mut self) -> (r: Vec<C>)
        ensures
            r@ == old(self).commands(),
            final(self).commands() == Seq::<C>::empty(),
            final(self).executed == 0,
            final(self).common == old(self).common,
            final(self).is_undoable == old(self).is_undoable,
            final(self).is_pessimistic == old(self).is_pessimistic,
            final(self).calls == old(self).calls,
    {
        proof {
            use_type_invariant(&*self);
        }
        self.executed = 0;
        let mut cs: Vec<C> = Vec::new();
        std::mem::swap(&mut cs, &mut self.commands);
        cs
    }

    /// Adds `command` at the end; the compound may not have been prepared.
    pub fn append(&mut self, command: C)
        requires
            !old(self).is_prepared_spec(),
        ensures
            final(self).commands() == old(self).commands().push(command),
            final(self).executed_count() == old(self).executed_count(),
            final(self).is_prepared_spec() == old(self).is_prepared_spec(),
            final(self).is_pessimistic_spec() == old(self).is_pessimistic_spec(),
            final(self).is_undoable_spec() == old(self).is_undoable_spec(),
            final(self).own_label() == old(self).own_label(),
            final(self).own_description() == old(self).own_description(),
    {
        proof {
            use_type_invariant(&*self);
        }
        let executed = self.executed;
        let mut cs = self.take_commands();
        cs.push(command);
        self.commands = cs;
        self.executed = executed;
    }

    /// Prepares the compound: asks each command in order whether it can
    /// execute; each but the last that can and can be undone is executed (or
    /// redone, when it was executed before); the answer is `false` at the first
    /// command that cannot execute or, but for the last, cannot be undone. The
    /// last command's undoability becomes the compound's. A pessimistic
    /// compound then undoes, in reverse order, the executed commands that can be
    /// undone. An empty compound cannot execute and is not undoable.
    pub fn prepare_internal(&mut self) -> (r: bool)
        ensures
            r ==> final(self).commands().len() > 0,
            C::obeys_command_spec() ==> (r ==> all_runnable(final(self).commands())),
            C::obeys_command_spec() ==> (r ==> final(self).is_undoable_spec()
                == final(self).commands().last().undoable()),
            old(self).commands().len() == 0 ==> !r && !final(self).is_undoable_spec(),
            final(self).commands().len() == old(self).commands().len(),
            C::obeys_command_spec() ==> (all_runnable(old(self).commands()) ==> all_runnable(
                final(self).commands(),
            )),
            final(self).executed_count() >= old(self).executed_count(),
            final(self).is_prepared_spec() == old(self).is_prepared_spec(),
            final(self).is_pessimistic_spec() == old(self).is_pessimistic_spec(),
            final(self).own_label() == old(self).own_label(),
            final(self).own_description() == old(self).own_description(),
            old(self).commands().len() > 0 && !r ==> final(self).is_undoable_spec() == old(
                self,
            ).is_undoable_spec(),
            answers_stated::<C>() ==> r == strict_answer(old(self).commands(), final(self).commands()),
            answers_stated::<C>() ==> strict_asked(old(self).commands(), final(self).commands()),
            answers_stated::<C>() && old(self).commands().len() > 0 ==> exists|m: int|
                #![trigger strict_stop(old(self).commands(), final(self).commands(), m)]
                strict_stop(old(self).commands(), final(self).commands(), m)
                    && final(self).executed_count() == (if m > old(self).executed_count() {
                    m
                } else {
                    old(self).executed_count() as int
                }) && final(self).calls() == old(self).calls() + strict_calls(
                    old(self).executed_count(),
                    m as nat,
                    old(self).is_pessimistic_spec(),
                    final(self).commands(),
                ),
            old(self).commands().len() == 0 ==> final(self).calls() == old(self).calls(),
    {
        proof {
            use_type_invariant(&*self);
        }
        let len = self.commands.len();
        if len == 0 {
            self.is_undoable = false;
            return false;
        }
        let mut executed = self.executed;
        let ghost e0 = self.executed as int;
        let pessimistic = self.is_pessimistic;
        let mut cs = self.take_commands();
        let ghost start = cs@;
        let mut undoable_last = self.is_undoable;
        let mut result = true;
        let mut i: usize = 0;
        let ghost mut stop: int = 0;
        while i < len
            invariant_except_break
                i < len,
                result,
                C::obeys_command_spec() ==> forall|k: int|
                    0 <= k < i ==> #[trigger] cs@[k].runnable(),
                forall|k: int| i <= k < len ==> #[trigger] cs@[k] == start[k],
                answers_stated::<C>() ==> strict_reached(start, cs@, i as int),
                answers_stated::<C>() ==> forall|k: int|
                    0 <= k < i ==> #[trigger] start[k].prepared_as(cs@[k]),
                executed == if i > e0 {
                    i as int
                } else {
                    e0
                },
                self.calls@ == old(self).calls@ + forward_calls(e0 as nat, i as nat),
            invariant
                0 < len == cs@.len() == start.len(),
                self.is_pessimistic == old(self).is_pessimistic,
                self.commands@ == Seq::<C>::empty(),
                self.executed == 0,
                self.common == old(self).common,
                self.is_undoable == old(self).is_undoable,
                start == old(self).commands@,
                e0 == old(self).executed,
                old(self).executed <= executed <= len,
                C::obeys_command_spec() ==> forall|k: int|
                    0 <= k < len && start[k].runnable() ==> #[trigger] cs@[k].runnable(),
            ensures
                C::obeys_command_spec() ==> (result ==> all_runnable(cs@) && undoable_last
                    == cs@.last().undoable()),
                answers_stated::<C>() ==> result == strict_answer(start, cs@),
                answers_stated::<C>() ==> strict_asked(start, cs@),
                answers_stated::<C>() ==> strict_stop(start, cs@, stop),
                executed == if stop > e0 {
                    stop
                } else {
                    e0
                },
                0 <= stop,
                self.calls@ == old(self).calls@ + forward_calls(e0 as nat, stop as nat),
            decreases len - i,
        {
            let ghost before = cs@;
            let ok = cs[i].can_execute();
            proof {
                assert(before[i as int] == start[i as int]);
                assert forall|k: int| 0 <= k < len && k != i implies #[trigger] cs@[k] == before[k] by {}
            }
            if ok {
                if i == len - 1 {
                    undoable_last = cs[i].can_undo();
                    proof {
                        stop = i as int;
                        if C::obeys_command_spec() {
                            assert forall|k: int| 0 <= k < len implies #[trigger] cs@[k].runnable() by {
                                if k < i {
                                } else {
                                    assert(k == i);
                                }
                            }
                        }
                        if answers_stated::<C>() {
                            assert(strict_reached(start, cs@, i as int)) by {
                                assert forall|j: int| 0 <= j < i implies #[trigger] strict_passes(start[j], cs@[j]) by {
                                    assert(strict_reached(start, before, i as int));
                                    assert(strict_passes(start[j], before[j]));
                                }
                            }
                            lemma_strict_asked_prefix(start, cs@, i as int);
                        }
                    }
                    break;
                } else if cs[i].can_undo() {
                    if i < executed {
                        cs[i].redo();
                        proof {
                            self.calls = Ghost(self.calls@.push(CommandCall::Redo(i)));
                        }
                    } else {
                        executed = executed + 1;
                        cs[i].execute();
                        proof {
                            self.calls = Ghost(self.calls@.push(CommandCall::Execute(i)));
                        }
                    }
                    proof {
                        assert(forward_calls(e0 as nat, i as nat).push(if i < e0 {
                            CommandCall::Redo(i)
                        } else {
                            CommandCall::Execute(i)
                        }) =~= forward_calls(e0 as nat, (i + 1) as nat));
                    }
                    proof {
                        if answers_stated::<C>() {
                            assert forall|j: int| 0 <= j < i + 1 implies #[trigger] strict_passes(start[j], cs@[j]) by {
                                if j < i {
                                    assert(strict_reached(start, before, i as int));
                                    assert(strict_passes(start[j], before[j]));
                                }
                            }
                        }
                    }
                } else {
                    result = false;
                    proof {
                        stop = i as int;
                        if answers_stated::<C>() {
                            assert(strict_reached(start, cs@, i as int)) by {
                                assert forall|j: int| 0 <= j < i implies #[trigger] strict_passes(start[j], cs@[j]) by {
                                    assert(strict_reached(start, before, i as int));
                                    assert(strict_passes(start[j], before[j]));
                                }
                            }
                            assert(!strict_passes(start[i as int], cs@[i as int]));
                            lemma_strict_asked_prefix(start, cs@, i as int);
                            assert(!strict_reached(start, cs@, len - 1));
                        }
                    }
                    break;
                }
            } else {
                result = false;
                proof {
                    stop = i as int;
                    if answers_stated::<C>() {
                        assert(strict_reached(start, cs@, i as int)) by {
                            assert forall|j: int| 0 <= j < i implies #[trigger] strict_passes(start[j], cs@[j]) by {
                                assert(strict_reached(start, before, i as int));
                                assert(strict_passes(start[j], before[j]));
                            }
                        }
                        assert(!strict_passes(start[i as int], cs@[i as int]));
                        lemma_strict_asked_prefix(start, cs@, i as int);
                        if i < len - 1 {
                            assert(!strict_reached(start, cs@, len - 1));
                        }
                    }
                }
                break;
            }
            i += 1;
        }
        let ghost fwd = self.calls@;
        if pessimistic {
            let mut j: usize = executed;
            while j > 0
                invariant
                    j <= executed <= len == cs@.len(),
                    executed == if stop > e0 {
                        stop
                    } else {
                        e0
                    },
                    C::obeys_command_spec() ==> self.calls@ == fwd + undo_calls(cs@, executed as int, j as int),
                    self.is_pessimistic == old(self).is_pessimistic,
                    self.commands@ == Seq::<C>::empty(),
                    self.executed == 0,
                    self.common == old(self).common,
                    self.is_undoable == old(self).is_undoable,
                decreases j,
            {
                j -= 1;
                if cs[j].can_undo() {
                    cs[j].undo();
                    proof {
                        self.calls = Ghost(self.calls@.push(CommandCall::Undo(j)));
                    }
                }
                proof {
                    if C::obeys_command_spec() {
                        assert(undo_calls(cs@, executed as int, j as int) == undo_calls(cs@, executed as int, j + 1) + if cs@[j as int].undoable() {
                            seq![CommandCall::Undo(j)]
                        } else {
                            Seq::empty()
                        });
                        assert(self.calls@ =~= fwd + undo_calls(cs@, executed as int, j as int));
                    }
                }
            }
        }
        self.commands = cs;
        self.executed = executed;
        if result {
            self.is_undoable = undoable_last;
        }
        proof {
            if answers_stated::<C>() {
                assert(strict_stop(old(self).commands(), self.commands(), stop));
                if !pessimistic {
                    assert(self.calls@ =~= old(self).calls@ + strict_calls(e0 as nat, stop as nat, pessimistic, self.commands@));
                } else {
                    assert(self.calls@ =~= old(self).calls@ + strict_calls(e0 as nat, stop as nat, pessimistic, self.commands@));
                }
                assert(self.executed_count() == if stop > old(self).executed_count() {
                    stop
                } else {
                    old(self).executed_count() as int
                });
            }
        }
        result
    }

    /// Runs the prepared compound: a pessimistic compound redoes its executed
    /// commands and executes the others, in order; an optimistic one executes
    /// its last command (the others ran during preparation).
    fn self_execute(&self)
        requires
            C::obeys_command_spec() ==> all_runnable(self.commands()),
    {
        proof {
            use_type_invariant(self);
        }
        let len = self.commands.len();
        if self.is_pessimistic {
            let mut i: usize = 0;
            while i < len
                invariant
                    len == self.commands@.len(),
                    i <= len,
                    C::obeys_command_spec() ==> all_runnable(self.commands@),
                decreases len - i,
            {
                if i < self.executed {
                    self.commands[i].redo();
                } else {
                    self.commands[i].execute();
                }
                i += 1;
            }
        } else if len > 0 {
            self.commands[len - 1].execute();
        }
    }

    /// Prepares the compound on first use (an empty one is ready at once; a
    /// filled one is prepared, made pessimistic and, when it can, executed),
    /// then executes `command` and adds it at the end when it can execute (and
    /// returns `true`); otherwise disposes of it and returns `false`.
    pub fn append_and_execute(&mut self, command: C) -> (r: bool)
        ensures
            final(self).is_prepared_spec(),
            r ==> final(self).commands().len() == old(self).commands().len() + 1,
            C::obeys_command_spec() ==> (r ==> final(self).commands().last().runnable()
                && final(self).is_undoable_spec() == final(self).commands().last().undoable()),
            !r ==> final(self).commands().len() == old(self).commands().len(),
            !old(self).is_prepared_spec() && old(self).commands().len() > 0
                ==> final(self).is_pessimistic_spec(),
            old(self).is_prepared_spec() || old(self).commands().len() == 0
                ==> final(self).is_pessimistic_spec() == old(self).is_pessimistic_spec(),
            final(self).own_label() == old(self).own_label(),
            final(self).own_description() == old(self).own_description(),
    {
        proof {
            use_type_invariant(&*self);
        }
        if !self.common.is_prepared {
            if self.commands.len() == 0 {
                self.common.is_executable = true;
                self.common.is_prepared = true;
            } else {
                let ex = self.prepare_internal();
                proof {
                    use_type_invariant(&*self);
                }
                self.common.is_executable = ex;
                self.common.is_prepared = true;
                self.is_pessimistic = true;
                if ex {
                    self.self_execute();
                }
            }
        }
        proof {
            use_type_invariant(&*self);
        }
        let mut c = command;
        if c.can_execute() {
            c.execute();
            let u = c.can_undo();
            let executed = self.executed;
            let mut cs = self.take_commands();
            cs.push(c);
            let n = cs.len();
            proof {
                assert(executed < n);
            }
            self.commands = cs;
            self.executed = executed + 1;
            self.is_undoable = u;
            true
        } else {
            c.dispose();
            false
        }
    }
}

impl<C: Command> Command for StrictCompoundCommand<C> {
    type Value = C::Value;

    open spec fn obeys_command_spec() -> bool {
        C::obeys_command_spec()
    }

    open spec fn runnable(&self) -> bool {
        all_runnable(self.commands())
    }

    open spec fn undoable(&self) -> bool {
        all_undoable(self.commands())
    }

    open spec fn result_view(&self) -> Seq<C::Value> {
        if self.commands().len() == 0 {
            Seq::empty()
        } else {
            self.commands().last().result_view()
        }
    }

    open spec fn affected_view(&self) -> Seq<C::Value> {
        if self.commands().len() == 0 {
            Seq::empty()
        } else {
            self.commands().last().affected_view()
        }
    }

    open spec fn label_view(&self) -> Seq<char> {
        text_or(self.own_label(), COMPOUND_DEFAULT_LABEL@)
    }

    open spec fn description_view(&self) -> Seq<char> {
        text_or(self.own_description(), COMPOUND_DEFAULT_DESCRIPTION@)
    }

    fn can_execute(&mut self) -> (r: bool)
        ensures
            final(self).is_prepared_spec(),
            old(self).is_prepared_spec() ==> final(self).commands() == old(self).commands(),
            final(self).commands().len() == old(self).commands().len(),
            final(self).own_label() == old(self).own_label(),
            final(self).own_description() == old(self).own_description(),
    {
        proof {
            use_type_invariant(&*self);
        }
        if !self.common.is_prepared {
            let ok = self.prepare_internal();
            proof {
                use_type_invariant(&*self);
            }
            self.common.is_executable = ok;
            self.common.is_prepared = true;
        }
        self.common.is_executable
    }

    fn execute(&self) {
        self.self_execute();
    }

    fn can_undo(&self) -> (r: bool) {
        let n = self.commands.len();
        let mut i: usize = 0;
        while i < n
            invariant
                n == self.commands@.len(),
                i <= n,
                C::obeys_command_spec() ==> forall|k: int|
                    0 <= k < i ==> #[trigger] self.commands@[k].undoable(),
            decreases n - i,
        {
            if !self.commands[i].can_undo() {
                return false;
            }
            i += 1;
        }
        true
    }

    fn undo(&self) {
        let n = self.commands.len();
        if self.is_pessimistic {
            let mut i: usize = n;
            while i > 0
                invariant
                    i <= n == self.commands@.len(),
                    C::obeys_command_spec() ==> all_undoable(self.commands@),
                decreases i,
            {
                i -= 1;
                self.commands[i].undo();
            }
        } else if n > 0 {
            self.commands[n - 1].undo();
        }
    }

    fn redo(&self) {
        let n = self.commands.len();
        if self.is_pessimistic {
            let mut i: usize = 0;
            while i < n
                invariant
                    n == self.commands@.len(),
                    i <= n,
                    C::obeys_command_spec() ==> all_runnable(self.commands@),
                decreases n - i,
            {
                self.commands[i].redo();
                i += 1;
            }
        } else if n > 0 {
            self.commands[n - 1].redo();
        }
    }

    fn get_result(&self) -> (r: Vec<C::Value>) {
        let n = self.commands.len();
        if n == 0 {
            Vec::new()
        } else {
            self.commands[n - 1].get_result()
        }
    }

    fn get_affected_objects(&self) -> (r: Vec<C::Value>) {
        let n = self.commands.len();
        if n == 0 {
            Vec::new()
        } else {
            self.commands[n - 1].get_affected_objects()
        }
    }

    fn get_label(&self) -> (r: String) {
        self.common.default_label(COMPOUND_DEFAULT_LABEL)
    }

    fn get_description(&self) -> (r: String) {
        self.common.default_description(COMPOUND_DEFAULT_DESCRIPTION)
    }

    fn dispose(&self) {
        let n = self.commands.len();
        let mut i: usize = 0;
        while i < n
            invariant
                n == self.commands@.len(),
                i <= n,
            decreases n - i,
        {
            self.commands[i].dispose();
            i += 1;
        }
    }
}

/// Supplies the command a `CommandWrapper` wraps when it is first needed.
pub trait CommandFactory<C> {
    /// The command to wrap, when there is one.
    fn create_command(&self) -> Option<C>;
}

/// The factory of a wrapper that is given its command, or none: it creates nothing.
pub struct NoFactory;

impl<C> CommandFactory<C> for NoFactory {
    fn create_command(&self) -> Option<C> {
        None
    }
}

/// A command that stands for another one, which it may create on first use,
/// and to which it hands every call.
pub struct CommandWrapper<C: Command, F: CommandFactory<C>> {
    common: AbstractBase,
    command: Option<C>,
    factory: F,
}

/// There is a wrapped command and it is runnable.
pub open spec fn wrapped_runnable<C: Command>(command: Option<C>) -> bool {
    match command {
        Some(c) => c.runnable(),
        None => false,
    }
}

impl<C: Command, F: CommandFactory<C>> CommandWrapper<C, F> {
    /// Once prepared with a positive answer, the wrapper holds a runnable command.
    #[verifier::type_invariant]
    closed spec fn wrapper_inv(self) -> bool {
        self.common.is_prepared && self.common.is_executable ==> (self.command is Some && (
        C::obeys_command_spec() ==> wrapped_runnable(self.command)))
    }

    /// The wrapped command.
    pub closed spec fn command(&self) -> Option<C> {
        self.command
    }

    /// `can_execute` has prepared the wrapper.
    pub closed spec fn is_prepared_spec(&self) -> bool {
        self.common.is_prepared
    }

    /// The wrapper's own label (empty: none).
    pub closed spec fn own_label(&self) -> Seq<char> {
        self.common.label@
    }

    /// The wrapper's own description (empty: none).
    pub closed spec fn own_description(&self) -> Seq<char> {
        self.common.description@
    }

    /// A wrapper without a command that creates it with `factory` on first use.
    pub fn lazy(factory: F) -> (r: Self)
        ensures
            r.command() is None,
            !r.is_prepared_spec(),
            r.own_label() == Seq::<char>::empty(),
            r.own_description() == Seq::<char>::empty(),
    {
        CommandWrapper { common: AbstractBase::new(), command: None, factory }
    }

    /// The wrapped command, if any.
    pub fn get_command(&self) -> (r: Option<&C>)
        ensures
            r == match self.command() {
                Some(c) => Some(&c),
                None => None::<&C>,
            },
    {
        match &self.command {
            Some(c) => Some(c),
            None => None,
        }
    }

    /// Creates the command when there is none yet, then asks it whether it can
    /// execute; `false` without a command.
    fn prepare_internal(&mut self) -> (r: bool)
        requires
            !old(self).is_prepared_spec(),
        ensures
            r ==> final(self).command() is Some,
            C::obeys_command_spec() ==> (r ==> wrapped_runnable(final(self).command())),
            old(self).command() is Some ==> final(self).command() is Some,
            C::obeys_command_spec() ==> (wrapped_runnable(old(self).command()) ==> wrapped_runnable(
                final(self).command(),
            )),
            final(self).common == old(self).common,
            C::obeys_answer_spec() ==> (old(self).command() matches Some(c) ==> {
                &&& r == c.can_execute_answer()
                &&& final(self).command() matches Some(c2) && c.prepared_as(c2)
            }),
    {
        proof {
            use_type_invariant(&*self);
        }
        let mut cmd: Option<C> = None;
        std::mem::swap(&mut cmd, &mut self.command);
        if cmd.is_none() {
            cmd = self.factory.create_command();
        }
        let ok = match &mut cmd {
            Some(c) => c.can_execute(),
            None => false,
        };
        self.command = cmd;
        ok
    }
}

impl<C: Command> CommandWrapper<C, NoFactory> {
    /// A wrapper of `command` that takes its label and description.
    pub fn new(command: C) -> (r: Self)
        ensures
            r.command() == Some(command),
            !r.is_prepared_spec(),
            C::obeys_command_spec() ==> r.own_label() == command.label_view(),
            C::obeys_command_spec() ==> r.own_description() == command.description_view(),
    {
        let label = command.get_label();
        let description = command.get_description();
        let mut common = AbstractBase::new();
        common.label = label;
        common.description = description;
        CommandWrapper { common, command: Some(command), factory: NoFactory }
    }

    /// A wrapper of `command` with the given label and the command's description.
    pub fn with_label(label: &str, command: C) -> (r: Self)
        ensures
            r.command() == Some(command),
            !r.is_prepared_spec(),
            r.own_label() == label@,
            C::obeys_command_spec() ==> r.own_description() == command.description_view(),
    {
        let description = command.get_description();
        let mut common = AbstractBase::new();
        common.label = label.to_owned();
        common.description = description;
        CommandWrapper { common, command: Some(command), factory: NoFactory }
    }

    /// A wrapper without a command.
    pub fn empty() -> (r: Self)
        ensures
            r.command() is None,
            !r.is_prepared_spec(),
            r.own_label() == Seq::<char>::empty(),
            r.own_description() == Seq::<char>::empty(),
    {
        CommandWrapper { common: AbstractBase::new(), command: None, factory: NoFactory }
    }
}

impl<C: Command, F: CommandFactory<C>> Command for CommandWrapper<C, F> {
    type Value = C::Value;

    open spec fn obeys_command_spec() -> bool {
        C::obeys_command_spec()
    }

    open spec fn runnable(&self) -> bool {
        wrapped_runnable(self.command())
    }

    open spec fn undoable(&self) -> bool {
        match self.command() {
            Some(c) => c.undoable(),
            None => true,
        }
    }

    open spec fn result_view(&self) -> Seq<C::Value> {
        match self.command() {
            Some(c) => c.result_view(),
            None => Seq::empty(),
        }
    }

    open spec fn affected_view(&self) -> Seq<C::Value> {
        match self.command() {
            Some(c) => c.affected_view(),
            None => Seq::empty(),
        }
    }

    open spec fn label_view(&self) -> Seq<char> {
        if self.own_label().len() != 0 {
            self.own_label()
        } else {
            match self.command() {
                Some(c) => c.label_view(),
                None => WRAPPER_DEFAULT_LABEL@,
            }
        }
    }

    open spec fn description_view(&self) -> Seq<char> {
        if self.own_description().len() != 0 {
            self.own_description()
        } else {
            match self.command() {
                Some(c) => c.description_view(),
                None => WRAPPER_DEFAULT_DESCRIPTION@,
            }
        }
    }

    fn can_execute(&mut self) -> (r: bool)
        ensures
            final(self).is_prepared_spec(),
            old(self).is_prepared_spec() ==> final(self).command() == old(self).command(),
            old(self).command() is Some ==> final(self).command() is Some,
            final(self).own_label() == old(self).own_label(),
            final(self).own_description() == old(self).own_description(),
    {
        proof {
            use_type_invariant(&*self);
        }
        if !self.common.is_prepared {
            let ok = self.prepare_internal();
            proof {
                use_type_invariant(&*self);
            }
            self.common.is_executable = ok;
            self.common.is_prepared = true;
        }
        self.common.is_executable
    }

    fn execute(&self) {
        match &self.command {
            Some(c) => c.execute(),
            None => {},
        }
    }

    fn can_undo(&self) -> (r: bool) {
        match &self.command {
            Some(c) => c.can_undo(),
            None => true,
        }
    }

    fn undo(&self) {
        match &self.command {
            Some(c) => c.undo(),
            None => {},
        }
    }

    fn redo(&self) {
        match &self.command {
            Some(c) => c.redo(),
            None => {},
        }
    }

    fn get_result(&self) -> (r: Vec<C::Value>) {
        match &self.command {
            Some(c) => c.get_result(),
            None => Vec::new(),
        }
    }

    fn get_affected_objects(&self) -> (r: Vec<C::Value>) {
        match &self.command {
            Some(c) => c.get_affected_objects(),
            None => Vec::new(),
        }
    }

    fn get_label(&self) -> (r: String) {
        if !self.common.label.as_str().is_empty() {
            return self.common.label.clone();
        }
        match &self.command {
            Some(c) => c.get_label(),
            None => WRAPPER_DEFAULT_LABEL.to_owned(),
        }
    }

    fn get_description(&self) -> (r: String) {
        if !self.common.description.as_str().is_empty() {
            return self.common.description.clone();
        }
        match &self.command {
            Some(c) => c.get_description(),
            None => WRAPPER_DEFAULT_DESCRIPTION.to_owned(),
        }
    }

    fn dispose(&self) {
        match &self.command {
            Some(c) => c.dispose(),
            None => {},
        }
    }
}

/// Chaining of commands: `a.chain(b)` is the compound that runs `a` then `b`.
pub trait ChainCommand: Command {
    /// A merging compound command that runs this command and then `command`.
    fn chain(self, command: Self) -> (r: CompoundCommand<Self>)
        ensures
            r.commands() == seq![self, command],
            r.result_index_spec() == MERGE_COMMAND_ALL,
            !r.is_prepared_spec(),
    ;
}

impl<C: Command> ChainCommand for C {
    fn chain(self, command: C) -> (r: CompoundCommand<C>) {
        let mut v: Vec<C> = Vec::new();
        v.push(self);
        v.push(command);
        CompoundCommand::from_commands(v)
    }
}

/// A chain of two commands reports the results and affected objects of both,
/// in order, and the label and description of the second.
pub proof fn lemma_chain_reports<C: Command>(a: C, b: C)
    ensures
        compound_result(seq![a, b], MERGE_COMMAND_ALL) == a.result_view() + b.result_view(),
        compound_affected(seq![a, b], MERGE_COMMAND_ALL) == a.affected_view() + b.affected_view(),
        compound_label(Seq::empty(), seq![a, b], MERGE_COMMAND_ALL) == b.label_view(),
        compound_description(Seq::empty(), seq![a, b], MERGE_COMMAND_ALL) == b.description_view(),
{
    let s = seq![a, b];
    assert(s.drop_last() =~= seq![a]);
    assert(seq![a].drop_last() =~= Seq::<C>::empty());
    assert(seq![a].last() == a);
    assert(s.last() == b);
    assert(merged_results(Seq::<C>::empty()) =~= Seq::<C::Value>::empty());
    assert(merged_affected(Seq::<C>::empty()) =~= Seq::<C::Value>::empty());
    assert(merged_results(seq![a]) =~= a.result_view());
    assert(merged_affected(seq![a]) =~= a.affected_view());
}

/// What `CompoundCommand::unwrap` hands back. It answers every call as the
/// command it holds does; the unexecutable command is never runnable nor
/// undoable, so `execute`, `undo` and `redo` do nothing on it.
pub enum UnwrappedCommand<C: Command> {
    /// The compound was empty.
    Unexecutable(UnexecutableCommand<C::Value>),
    /// The compound's only command.
    Single(C),
    /// The compound itself.
    Compound(CompoundCommand<C>),
}

impl<C: Command> Command for UnwrappedCommand<C> {
    type Value = C::Value;

    open spec fn obeys_command_spec() -> bool {
        C::obeys_command_spec()
    }

    open spec fn runnable(&self) -> bool {
        match self {
            UnwrappedCommand::Unexecutable(u) => u.runnable(),
            UnwrappedCommand::Single(c) => c.runnable(),
            UnwrappedCommand::Compound(cc) => cc.runnable(),
        }
    }

    open spec fn undoable(&self) -> bool {
        match self {
            UnwrappedCommand::Unexecutable(u) => u.undoable(),
            UnwrappedCommand::Single(c) => c.undoable(),
            UnwrappedCommand::Compound(cc) => cc.undoable(),
        }
    }

    open spec fn result_view(&self) -> Seq<C::Value> {
        match self {
            UnwrappedCommand::Unexecutable(u) => u.result_view(),
            UnwrappedCommand::Single(c) => c.result_view(),
            UnwrappedCommand::Compound(cc) => cc.result_view(),
        }
    }

    open spec fn affected_view(&self) -> Seq<C::Value> {
        match self {
            UnwrappedCommand::Unexecutable(u) => u.affected_view(),
            UnwrappedCommand::Single(c) => c.affected_view(),
            UnwrappedCommand::Compound(cc) => cc.affected_view(),
        }
    }

    open spec fn label_view(&self) -> Seq<char> {
        match self {
            UnwrappedCommand::Unexecutable(u) => u.label_view(),
            UnwrappedCommand::Single(c) => c.label_view(),
            UnwrappedCommand::Compound(cc) => cc.label_view(),
        }
    }

    open spec fn description_view(&self) -> Seq<char> {
        match self {
            UnwrappedCommand::Unexecutable(u) => u.description_view(),
            UnwrappedCommand::Single(c) => c.description_view(),
            UnwrappedCommand::Compound(cc) => cc.description_view(),
        }
    }

    open spec fn obeys_answer_spec() -> bool {
        C::obeys_answer_spec()
    }

    open spec fn can_execute_answer(&self) -> bool {
        match self {
            UnwrappedCommand::Unexecutable(u) => u.can_execute_answer(),
            UnwrappedCommand::Single(c) => c.can_execute_answer(),
            UnwrappedCommand::Compound(cc) => cc.can_execute_answer(),
        }
    }

    /// The same variant, holding what the held command's `can_execute` may
    /// leave of it.
    open spec fn prepared_as(&self, after: Self) -> bool {
        match (self, after) {
            (UnwrappedCommand::Unexecutable(u), UnwrappedCommand::Unexecutable(u2)) => u.prepared_as(u2),
            (UnwrappedCommand::Single(c), UnwrappedCommand::Single(c2)) => c.prepared_as(c2),
            (UnwrappedCommand::Compound(cc), UnwrappedCommand::Compound(cc2)) => cc.prepared_as(cc2),
            _ => false,
        }
    }

    fn can_execute(&mut self) -> (r: bool) {
        match self {
            UnwrappedCommand::Unexecutable(u) => u.can_execute(),
            UnwrappedCommand::Single(c) => c.can_execute(),
            UnwrappedCommand::Compound(cc) => cc.can_execute(),
        }
    }

    fn execute(&self) {
        match self {
            UnwrappedCommand::Unexecutable(_) => {},
            UnwrappedCommand::Single(c) => c.execute(),
            UnwrappedCommand::Compound(cc) => cc.execute(),
        }
    }

    fn can_undo(&self) -> (r: bool) {
        match self {
            UnwrappedCommand::Unexecutable(u) => u.can_undo(),
            UnwrappedCommand::Single(c) => c.can_undo(),
            UnwrappedCommand::Compound(cc) => cc.can_undo(),
        }
    }

    fn undo(&self) {
        match self {
            UnwrappedCommand::Unexecutable(_) => {},
            UnwrappedCommand::Single(c) => c.undo(),
            UnwrappedCommand::Compound(cc) => cc.undo(),
        }
    }

    fn redo(&self) {
        match self {
            UnwrappedCommand::Unexecutable(_) => {},
            UnwrappedCommand::Single(c) => c.redo(),
            UnwrappedCommand::Compound(cc) => cc.redo(),
        }
    }

    fn get_result(&self) -> (r: Vec<C::Value>) {
        match self {
            UnwrappedCommand::Unexecutable(u) => u.get_result(),
            UnwrappedCommand::Single(c) => c.get_result(),
            UnwrappedCommand::Compound(cc) => cc.get_result(),
        }
    }

    fn get_affected_objects(&self) -> (r: Vec<C::Value>) {
        match self {
            UnwrappedCommand::Unexecutable(u) => u.get_affected_objects(),
            UnwrappedCommand::Single(c) => c.get_affected_objects(),
            UnwrappedCommand::Compound(cc) => cc.get_affected_objects(),
        }
    }

    fn get_label(&self) -> (r: String) {
        match self {
            UnwrappedCommand::Unexecutable(u) => u.get_label(),
            UnwrappedCommand::Single(c) => c.get_label(),
            UnwrappedCommand::Compound(cc) => cc.get_label(),
        }
    }

    fn get_description(&self) -> (r: String) {
        match self {
            UnwrappedCommand::Unexecutable(u) => u.get_description(),
            UnwrappedCommand::Single(c) => c.get_description(),
            UnwrappedCommand::Compound(cc) => cc.get_description(),
        }
    }

    fn dispose(&self) {
        match self {
            UnwrappedCommand::Unexecutable(u) => u.dispose(),
            UnwrappedCommand::Single(c) => c.dispose(),
            UnwrappedCommand::Compound(cc) => cc.dispose(),
        }
    }
}

/// A runtime error signalling that command execution should be aborted.
#[derive(Debug, Clone, PartialEq)]
pub struct AbortExecutionException {
    message: String,
}

impl AbortExecutionException {
    /// The text the error carries.
    pub closed spec fn message_spec(&self) -> Seq<char> {
        self.message@
    }

    /// An error with an empty message.
    pub fn new() -> (r: Self)
        ensures
            r.message_spec() == Seq::<char>::empty(),
    {
        AbortExecutionException { message: String::new() }
    }

    /// An error carrying `message`.
    pub fn with_message(message: &str) -> (r: Self)
        ensures
            r.message_spec() == message@,
    {
        AbortExecutionException { message: message.to_owned() }
    }

    /// The message.
    pub fn message(&self) -> (r: &str)
        ensures
            r@ == self.message_spec(),
    {
        self.message.as_str()
    }

    /// The display text: the message itself.
    pub fn to_string(&self) -> (r: String)
        ensures
            r@ == self.message_spec(),
    {
        self.message.clone()
    }
}

impl Default for AbortExecutionException {
    fn default() -> (r: Self)
        ensures
            r.message_spec() == Seq::<char>::empty(),
    {
        Self::new()
    }
}

/// Callback notified whenever a command stack changes.
pub trait CommandStackListener {
    /// Called after each change of the stack.
    fn command_stack_changed(&self);
}

/// Marker naming every command stack listener under its alternative name.
pub trait CommandStackListenerAlias {}

impl<T: CommandStackListener> CommandStackListenerAlias for T {}

/// A command stack as the contracts see it: the commands in the order they
/// were executed, how many of them are done (the rest can be redone), the
/// done count at the last save (`None`: that state can no longer be reached),
/// and the position of the command most recently executed, undone or redone.
pub struct StackState<C> {
    pub commands: Seq<C>,
    pub done: nat,
    pub saved: Option<nat>,
    pub most_recent: Option<nat>,
}

/// The state of a new or flushed stack.
pub open spec fn empty_stack<C>() -> StackState<C> {
    StackState { commands: Seq::empty(), done: 0, saved: Some(0), most_recent: None }
}

/// The state after executing `c` in `s`: the commands that could be redone
/// are dropped, `c` becomes the top, and a save point among the dropped
/// commands can no longer be reached.
pub open spec fn executed_state<C>(s: StackState<C>, c: C) -> StackState<C> {
    StackState {
        commands: s.commands.take(s.done as int).push(c),
        done: s.done + 1,
        saved: match s.saved {
            Some(n) => if n > s.done {
                None
            } else {
                Some(n)
            },
            None => None,
        },
        most_recent: Some(s.done),
    }
}

/// The state after undoing the top command of `s`.
pub open spec fn undone_state<C>(s: StackState<C>) -> StackState<C> {
    StackState { done: (s.done - 1) as nat, most_recent: Some((s.done - 1) as nat), ..s }
}

/// The state after redoing the next command of `s`.
pub open spec fn redone_state<C>(s: StackState<C>) -> StackState<C> {
    StackState { done: s.done + 1, most_recent: Some(s.done), ..s }
}

/// The state after a save in `s`.
pub open spec fn saved_state<C>(s: StackState<C>) -> StackState<C> {
    StackState { saved: Some(s.done), ..s }
}

/// The stack differs from its last saved state.
pub open spec fn save_needed<C>(s: StackState<C>) -> bool {
    match s.saved {
        Some(n) => n != s.done,
        None => true,
    }
}

/// The top command of `s` can be undone.
pub open spec fn undo_possible<C: Command>(s: StackState<C>) -> bool {
    s.done > 0 && s.commands[s.done - 1].undoable()
}

/// A command can be redone in `s`.
pub open spec fn redo_possible<C>(s: StackState<C>) -> bool {
    s.done < s.commands.len()
}

/// Undoing the top command and then redoing it gives back the stack, with
/// that command as the most recent one.
pub proof fn lemma_undo_then_redo<C: Command>(s: StackState<C>)
    requires
        s.done > 0,
        s.done <= s.commands.len(),
    ensures
        redo_possible(undone_state(s)),
        redone_state(undone_state(s)) == (StackState { most_recent: Some((s.done - 1) as nat), ..s }),
{
}

/// Redoing the next command and then undoing it gives back the stack, with
/// that command as the most recent one.
pub proof fn lemma_redo_then_undo<C: Command>(s: StackState<C>)
    requires
        redo_possible(s),
    ensures
        undo_possible(redone_state(s)) == s.commands[s.done as int].undoable(),
        undone_state(redone_state(s)) == (StackState { most_recent: Some(s.done), ..s }),
{
}

/// Executing a command leaves nothing to redo, makes it the top command and
/// the most recent one, and keeps the commands below it.
pub proof fn lemma_execute_clears_redo<C: Command>(s: StackState<C>, c: C)
    requires
        s.done <= s.commands.len(),
    ensures
        !redo_possible(executed_state(s, c)),
        executed_state(s, c).commands.last() == c,
        executed_state(s, c).commands.drop_last() == s.commands.take(s.done as int),
        undo_possible(executed_state(s, c)) == c.undoable(),
        executed_state(s, c).most_recent == Some(s.done),
{
    assert(executed_state(s, c).commands.drop_last() =~= s.commands.take(s.done as int));
}

/// Right after a save no save is needed; executing a command then makes one
/// needed, and undoing that command makes it unneeded again.
pub proof fn lemma_save_tracking<C: Command>(s: StackState<C>, c: C)
    requires
        s.done <= s.commands.len(),
    ensures
        !save_needed(saved_state(s)),
        save_needed(executed_state(saved_state(s), c)),
        !save_needed(undone_state(executed_state(saved_state(s), c))),
{
}

/// Executing a command after undoing past the save point loses that point:
/// a save is needed from then on, whatever is undone or redone, until the
/// next save or flush.
pub proof fn lemma_lost_save_point<C: Command>(s: StackState<C>, c: C)
    requires
        s.done <= s.commands.len(),
        s.saved matches Some(n) && n > s.done,
    ensures
        executed_state(s, c).saved is None,
        save_needed(executed_state(s, c)),
        save_needed(undone_state(executed_state(s, c))),
{
}

/// A new or flushed stack has nothing to undo or redo and needs no save.
pub proof fn lemma_empty_stack_clean<C: Command>()
    ensures
        !undo_possible(empty_stack::<C>()),
        !redo_possible(empty_stack::<C>()),
        !save_needed(empty_stack::<C>()),
        empty_stack::<C>().most_recent is None,
{
}

/// Whether `a` and `b` are the same listener (`Rc::ptr_eq`: they point to
/// the same allocation). Claimed: a `true` answer means both hold the same
/// listener. When the answer is `true` otherwise is not stated: it depends on
/// where the listeners live.
#[verifier::external_body]
fn same_listener<L: ?Sized>(a: &Rc<L>, b: &Rc<L>) -> (r: bool)
    ensures
        r ==> *a == *b,
{
    Rc::ptr_eq(a, b)
}

/// An undo/redo stack of executed commands with save tracking; it tells its
/// listeners of each change.
pub struct BasicCommandStack<C: Command, L: CommandStackListener + ?Sized> {
    command_list: Vec<C>,
    done: usize,
    saved_at: Option<usize>,
    most_recent: Option<usize>,
    listeners: Vec<Rc<L>>,
    rounds: Ghost<nat>,
}

impl<C: Command, L: CommandStackListener + ?Sized> View for BasicCommandStack<C, L> {
    type V = StackState<C>;

    closed spec fn view(&self) -> StackState<C> {
        StackState {
            commands: self.command_list@,
            done: self.done as nat,
            saved: match self.saved_at {
                Some(n) => Some(n as nat),
                None => None,
            },
            most_recent: match self.most_recent {
                Some(n) => Some(n as nat),
                None => None,
            },
        }
    }
}

impl<C: Command, L: CommandStackListener + ?Sized> BasicCommandStack<C, L> {
    /// The done commands are commands of the stack, the most recent command
    /// is one of them, and every command can run again.
    pub closed spec fn wf(&self) -> bool {
        &&& self.done <= self.command_list@.len()
        &&& (self.most_recent matches Some(i) ==> i < self.command_list@.len())
        &&& C::obeys_command_spec() ==> all_runnable(self.command_list@)
    }

    /// The listeners, in the order they were added.
    pub closed spec fn listeners(&self) -> Seq<Rc<L>> {
        self.listeners@
    }

    /// How many times the listeners have been told of a change.
    pub closed spec fn notified_rounds(&self) -> nat {
        self.rounds@
    }

    /// An empty stack without listeners.
    pub fn new() -> (r: Self)
        ensures
            r.wf(),
            r@ == empty_stack::<C>(),
            r.listeners() == Seq::<Rc<L>>::empty(),
            r.notified_rounds() == 0,
    {
        BasicCommandStack {
            command_list: Vec::new(),
            done: 0,
            saved_at: Some(0),
            most_recent: None,
            listeners: Vec::new(),
            rounds: Ghost(0),
        }
    }

    /// Tells each listener, in order, that the stack changed.
    fn notify_listeners(&mut self)
        ensures
            final(self)@ == old(self)@,
            final(self).command_list == old(self).command_list,
            final(self).listeners == old(self).listeners,
            final(self).notified_rounds() == old(self).notified_rounds() + 1,
    {
        proof {
            self.rounds = Ghost(self.rounds@ + 1);
        }
        let n = self.listeners.len();
        let mut i: usize = 0;
        while i < n
            invariant
                n == self.listeners@.len(),
                i <= n,
            decreases n - i,
        {
            self.listeners[i].command_stack_changed();
            i += 1;
        }
    }

    /// Records `command`, which has just been executed, as the new top: the
    /// commands that could be redone are dropped; listeners are told.
    pub fn push_executed(&mut self, command: C)
        requires
            old(self).wf(),
            C::obeys_command_spec() ==> command.runnable(),
        ensures
            final(self).wf(),
            final(self)@ == executed_state(old(self)@, command),
            final(self).listeners() == old(self).listeners(),
            final(self).notified_rounds() == old(self).notified_rounds() + 1,
    {
        let done = self.done;
        self.command_list.truncate(done);
        self.command_list.push(command);
        let n = self.command_list.len();
        proof {
            assert(done < n);
            assert(self.command_list@ =~= old(self)@.commands.take(done as int).push(command));
        }
        self.done = done + 1;
        self.most_recent = Some(done);
        match self.saved_at {
            Some(s) => {
                if s > done {
                    self.saved_at = None;
                }
            },
            None => {},
        }
        self.notify_listeners();
    }

    /// Executes `command` when it can execute and records it as the new top
    /// (see `push_executed`); otherwise disposes of it. `None` is ignored.
    pub fn execute(&mut self, command: Option<C>)
        requires
            old(self).wf(),
        ensures
            final(self).wf(),
            final(self).listeners() == old(self).listeners(),
            command is None ==> final(self)@ == old(self)@,
            final(self)@ == old(self)@ || (exists|c: C|
                #![trigger executed_state(old(self)@, c)]
                (C::obeys_command_spec() ==> c.runnable()) && final(self)@ == executed_state(
                    old(self)@,
                    c,
                )),
            C::obeys_answer_spec() ==> (command matches Some(c) ==> if c.can_execute_answer() {
                exists|c2: C|
                    #![trigger executed_state(old(self)@, c2)]
                    c.prepared_as(c2) && final(self)@ == executed_state(old(self)@, c2)
            } else {
                final(self)@ == old(self)@
            }),
            final(self).notified_rounds() == old(self).notified_rounds() + if final(self)@ == old(self)@ {
                0nat
            } else {
                1nat
            },
    {
        match command {
            Some(c) => {
                let ghost given = c;
                let mut c = c;
                if c.can_execute() {
                    c.execute();
                    let ghost pushed = c;
                    self.push_executed(c);
                    proof {
                        assert((C::obeys_command_spec() ==> pushed.runnable()) && self@
                            == executed_state(old(self)@, pushed));
                        assert(C::obeys_answer_spec() ==> given.prepared_as(pushed));
                    }
                } else {
                    c.dispose();
                }
            },
            None => {},
        }
    }

    /// There is a done command and it can be undone.
    pub fn can_undo(&self) -> (r: bool)
        requires
            self.wf(),
        ensures
            r ==> self@.done > 0,
            C::obeys_command_spec() ==> r == undo_possible(self@),
    {
        if self.done == 0 {
            return false;
        }
        self.command_list[self.done - 1].can_undo()
    }

    /// Undoes the top command when it can be undone, and tells the listeners.
    pub fn undo(&mut self)
        requires
            old(self).wf(),
        ensures
            final(self).wf(),
            final(self).listeners() == old(self).listeners(),
            final(self)@ == old(self)@ || (old(self)@.done > 0 && final(self)@ == undone_state(
                old(self)@,
            )),
            C::obeys_command_spec() ==> final(self)@ == if undo_possible(old(self)@) {
                undone_state(old(self)@)
            } else {
                old(self)@
            },
            final(self).notified_rounds() == old(self).notified_rounds() + if final(self)@ == old(self)@ {
                0nat
            } else {
                1nat
            },
    {
        if self.can_undo() {
            let i = self.done - 1;
            self.done = i;
            self.command_list[i].undo();
            self.most_recent = Some(i);
            self.notify_listeners();
        }
    }

    /// There is an undone command to redo.
    pub fn can_redo(&self) -> (r: bool)
        requires
            self.wf(),
        ensures
            r == redo_possible(self@),
    {
        self.done < self.command_list.len()
    }

    /// Redoes the next command when there is one, and tells the listeners.
    pub fn redo(&mut self)
        requires
            old(self).wf(),
        ensures
            final(self).wf(),
            final(self).listeners() == old(self).listeners(),
            final(self)@ == if redo_possible(old(self)@) {
                redone_state(old(self)@)
            } else {
                old(self)@
            },
            final(self).notified_rounds() == old(self).notified_rounds() + if final(self)@ == old(self)@ {
                0nat
            } else {
                1nat
            },
    {
        if self.can_redo() {
            let i = self.done;
            let n = self.command_list.len();
            proof {
                assert(i < n);
            }
            self.done = i + 1;
            self.command_list[i].redo();
            self.most_recent = Some(i);
            self.notify_listeners();
        }
    }

    /// Disposes of every command, empties the stack, and tells the listeners.
    pub fn flush(&mut self)
        requires
            old(self).wf(),
        ensures
            final(self).wf(),
            final(self)@ == empty_stack::<C>(),
            final(self).listeners() == old(self).listeners(),
            final(self).notified_rounds() == old(self).notified_rounds() + 1,
    {
        let n = self.command_list.len();
        let mut i: usize = 0;
        while i < n
            invariant
                n == self.command_list@.len(),
                i <= n,
            decreases n - i,
        {
            self.command_list[i].dispose();
            i += 1;
        }
        self.command_list.truncate(0);
        self.done = 0;
        self.saved_at = Some(0);
        self.most_recent = None;
        proof {
            assert(self.command_list@ =~= Seq::<C>::empty());
        }
        self.notify_listeners();
    }

    /// The command an `undo` would undo: the top done command.
    pub fn get_undo_command(&self) -> (r: Option<&C>)
        requires
            self.wf(),
        ensures
            self@.done == 0 ==> r is None,
            self@.done > 0 ==> r == Some(&self@.commands[self@.done - 1]),
    {
        if self.done == 0 {
            None
        } else {
            Some(&self.command_list[self.done - 1])
        }
    }

    /// The command a `redo` would redo.
    pub fn get_redo_command(&self) -> (r: Option<&C>)
        requires
            self.wf(),
        ensures
            !redo_possible(self@) ==> r is None,
            redo_possible(self@) ==> r == Some(&self@.commands[self@.done as int]),
    {
        if self.done < self.command_list.len() {
            Some(&self.command_list[self.done])
        } else {
            None
        }
    }

    /// The command most recently executed, undone or redone.
    pub fn get_most_recent_command(&self) -> (r: Option<&C>)
        requires
            self.wf(),
        ensures
            self@.most_recent is None ==> r is None,
            self@.most_recent matches Some(i) ==> r == Some(&self@.commands[i as int]),
    {
        match self.most_recent {
            Some(i) => Some(&self.command_list[i]),
            None => None,
        }
    }

    /// Adds a listener.
    pub fn add_command_stack_listener(&mut self, listener: Rc<L>)
        requires
            old(self).wf(),
        ensures
            final(self).wf(),
            final(self)@ == old(self)@,
            final(self).listeners() == old(self).listeners().push(listener),
            final(self).notified_rounds() == old(self).notified_rounds(),
    {
        self.listeners.push(listener);
    }

    /// Removes the first listener that is `listener` itself; the others stay
    /// in order.
    pub fn remove_command_stack_listener(&mut self, listener: &Rc<L>)
        requires
            old(self).wf(),
        ensures
            final(self).wf(),
            final(self)@ == old(self)@,
            final(self).listeners() == old(self).listeners() || exists|p: int|
                0 <= p < old(self).listeners().len() && old(self).listeners()[p] == *listener
                    && final(self).listeners() == old(self).listeners().remove(p),
            final(self).notified_rounds() == old(self).notified_rounds(),
    {
        let n = self.listeners.len();
        let mut i: usize = 0;
        while i < n
            invariant
                n == self.listeners@.len(),
                i <= n,
                *self == *old(self),
                old(self).wf(),
            decreases n - i,
        {
            if same_listener(&self.listeners[i], listener) {
                self.listeners.remove(i);
                return;
            }
            i += 1;
        }
    }

    /// Marks the current state as saved.
    pub fn save_is_done(&mut self)
        requires
            old(self).wf(),
        ensures
            final(self).wf(),
            final(self)@ == saved_state(old(self)@),
            final(self).listeners() == old(self).listeners(),
            final(self).notified_rounds() == old(self).notified_rounds(),
    {
        self.saved_at = Some(self.done);
    }

    /// The stack differs from its last saved state.
    pub fn is_save_needed(&self) -> (r: bool)
        requires
            self.wf(),
        ensures
            r == save_needed(self@),
    {
        match self.saved_at {
            Some(n) => n != self.done,
            None => true,
        }
    }
}

impl<C: Command, L: CommandStackListener + ?Sized> Default for BasicCommandStack<C, L> {
    fn default() -> (r: Self)
        ensures
            r.wf(),
            r@ == empty_stack::<C>(),
            r.listeners() == Seq::<Rc<L>>::empty(),
    {
        Self::new()
    }
}


} // verus!

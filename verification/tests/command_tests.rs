use artop::emf_common::command::{
    AbstractBase, BasicCommandStack, ChainCommand, Command, CommandFactory, CommandStackListener,
    CommandWrapper, CompoundCommand, IdentityCommand, StrictCompoundCommand, UnexecutableCommand,
    UnwrappedCommand, ABSTRACT_DEFAULT_DESCRIPTION, ABSTRACT_DEFAULT_LABEL,
    COMPOUND_DEFAULT_LABEL, IDENTITY_DEFAULT_DESCRIPTION, IDENTITY_DEFAULT_LABEL,
    LAST_COMMAND_ALL, UNEXECUTABLE_DEFAULT_LABEL, WRAPPER_DEFAULT_LABEL,
};
use std::cell::{Cell, RefCell};
use std::rc::Rc;

// ---- fixtures ----------------------------------------------------------

#[derive(Default)]
struct TestState {
    executed: bool,
    undone: bool,
    redone: bool,
}

struct TestCommand {
    common: AbstractBase,
    state: Rc<RefCell<TestState>>,
    prepare_ok: bool,
    result: Vec<String>,
}

impl TestCommand {
    fn make_with(label: &str, prepare_ok: bool) -> (TestCommand, Rc<RefCell<TestState>>) {
        let state = Rc::new(RefCell::new(TestState::default()));
        let mut common = AbstractBase::new();
        common.label = label.to_string();
        let cmd = TestCommand {
            common,
            state: state.clone(),
            prepare_ok,
            result: Vec::new(),
        };
        (cmd, state)
    }
}

fn test_cmd(label: &str) -> (TestCommand, Rc<RefCell<TestState>>) {
    TestCommand::make_with(label, true)
}

fn result_cmd(label: &str, result: &[&str]) -> TestCommand {
    let (mut c, _) = test_cmd(label);
    c.result = result.iter().map(|s| s.to_string()).collect();
    c
}

impl Command for TestCommand {
    type Value = String;

    fn can_execute(&mut self) -> bool {
        let ok = self.prepare_ok;
        self.common.can_execute_with(move || ok)
    }
    fn execute(&self) {
        let mut s = self.state.borrow_mut();
        s.executed = true;
        s.undone = false;
        s.redone = false;
    }
    fn can_undo(&self) -> bool {
        true
    }
    fn undo(&self) {
        let mut s = self.state.borrow_mut();
        s.executed = false;
        s.undone = true;
        s.redone = false;
    }
    fn redo(&self) {
        let mut s = self.state.borrow_mut();
        s.executed = true;
        s.undone = false;
        s.redone = true;
    }
    fn get_result(&self) -> Vec<String> {
        self.result.clone()
    }
    fn get_affected_objects(&self) -> Vec<String> {
        Vec::new()
    }
    fn get_label(&self) -> String {
        self.common.default_label(ABSTRACT_DEFAULT_LABEL)
    }
    fn get_description(&self) -> String {
        self.common.default_description(ABSTRACT_DEFAULT_DESCRIPTION)
    }
    fn dispose(&self) {}
}

/// A command whose preparation fails and whose undo is not implemented.
struct EmptyCmd {
    common: AbstractBase,
}

impl EmptyCmd {
    fn make() -> EmptyCmd {
        EmptyCmd { common: AbstractBase::new() }
    }
    fn with(label: &str, desc: &str) -> EmptyCmd {
        let mut common = AbstractBase::new();
        common.label = label.to_string();
        common.description = desc.to_string();
        EmptyCmd { common }
    }
}

impl Command for EmptyCmd {
    type Value = String;

    fn can_execute(&mut self) -> bool {
        self.common.can_execute_with(|| false)
    }
    fn execute(&self) {}
    fn can_undo(&self) -> bool {
        true
    }
    fn undo(&self) {
        panic!("Method not implemented: AbstractCommand.undo()")
    }
    fn redo(&self) {}
    fn get_result(&self) -> Vec<String> {
        self.common.default_result()
    }
    fn get_affected_objects(&self) -> Vec<String> {
        Vec::new()
    }
    fn get_label(&self) -> String {
        self.common.default_label(ABSTRACT_DEFAULT_LABEL)
    }
    fn get_description(&self) -> String {
        self.common.default_description(ABSTRACT_DEFAULT_DESCRIPTION)
    }
    fn dispose(&self) {}
}

struct StackListener {
    count: Rc<Cell<i32>>,
}

impl CommandStackListener for StackListener {
    fn command_stack_changed(&self) {
        self.count.set(self.count.get() + 1);
    }
}

fn listener() -> (Rc<dyn CommandStackListener>, Rc<Cell<i32>>) {
    let count = Rc::new(Cell::new(0));
    let l: Rc<dyn CommandStackListener> = Rc::new(StackListener { count: count.clone() });
    (l, count)
}

type Stack = BasicCommandStack<TestCommand, dyn CommandStackListener>;

struct LazyFactory {
    created: Rc<Cell<bool>>,
    sink: Rc<RefCell<Option<Rc<RefCell<TestState>>>>>,
}

impl CommandFactory<TestCommand> for LazyFactory {
    fn create_command(&self) -> Option<TestCommand> {
        self.created.set(true);
        let (c, state) = test_cmd("lazy");
        *self.sink.borrow_mut() = Some(state);
        Some(c)
    }
}

// ---- AbstractCommand -----------------------------------------------------

#[test]
fn command_abstract_command_prepare_defaults_to_false() {
    let mut cmd = EmptyCmd::make();
    assert!(!cmd.can_execute());
}

#[test]
fn command_abstract_command_can_execute_cached() {
    let (mut cmd, _) = test_cmd("test");
    assert!(cmd.can_execute());
    assert!(cmd.can_execute());
    assert!(cmd.can_execute());
}

#[test]
fn command_abstract_command_get_label_default() {
    let cmd = EmptyCmd::make();
    assert_eq!(cmd.get_label(), ABSTRACT_DEFAULT_LABEL);
}

#[test]
fn command_abstract_command_get_description_default() {
    let cmd = EmptyCmd::make();
    assert_eq!(cmd.get_description(), ABSTRACT_DEFAULT_DESCRIPTION);
}

#[test]
fn abstract_command_set_label_and_description() {
    let cmd = EmptyCmd::with("MyLabel", "MyDesc");
    assert_eq!(cmd.get_label(), "MyLabel");
    assert_eq!(cmd.get_description(), "MyDesc");
}

#[test]
fn command_abstract_command_chain() {
    let (a, sa) = test_cmd("a");
    let (b, sb) = test_cmd("b");
    let mut chained = a.chain(b);
    assert!(chained.can_execute());
    chained.execute();
    assert!(sa.borrow().executed);
    assert!(sb.borrow().executed);
}

// ---- CompoundCommand -----------------------------------------------------

#[test]
fn command_compound_command_empty_cannot_execute() {
    let mut cc = CompoundCommand::<TestCommand>::new();
    assert!(!cc.can_execute());
    assert!(cc.is_empty());
}

#[test]
fn command_compound_command_basic_execution() {
    let (a, sa) = test_cmd("a");
    let (b, sb) = test_cmd("b");
    let mut cc = CompoundCommand::new();
    cc.append(a);
    cc.append(b);
    assert!(!cc.is_empty());
    assert_eq!(cc.command_count(), 2);
    assert!(cc.can_execute());
    cc.execute();
    assert!(sa.borrow().executed);
    assert!(sb.borrow().executed);
    cc.undo();
    assert!(sb.borrow().undone);
    assert!(sa.borrow().undone);
    cc.redo();
    assert!(sa.borrow().executed);
    assert!(sb.borrow().executed);
}

#[test]
fn compound_command_result_index_last() {
    let (a, _) = test_cmd("a");
    let (b, _) = test_cmd("b");
    let mut cc = CompoundCommand::with_result_index(LAST_COMMAND_ALL);
    cc.append(a);
    cc.append(b);
    let res = cc.get_result();
    assert_eq!(res.len(), 0);
}

#[test]
fn compound_command_result_index_0() {
    let (a, _) = test_cmd("a");
    let (b, _) = test_cmd("b");
    let mut cc = CompoundCommand::with_result_index(0);
    cc.append(a);
    cc.append(b);
    let res = cc.get_result();
    assert_eq!(res.len(), 0);
}

#[test]
fn command_compound_command_label_from_last() {
    let (a, _) = test_cmd("labelA");
    let (b, _) = test_cmd("labelB");
    let mut cc = CompoundCommand::new();
    cc.append(a);
    cc.append(b);
    assert_eq!(cc.get_label(), "labelB");
}

#[test]
fn compound_command_label_explicit() {
    let cc = CompoundCommand::<TestCommand>::with_label("explicit");
    assert_eq!(cc.get_label(), "explicit");
}

#[test]
fn command_compound_command_append_null_ignored() {
    let cc = CompoundCommand::<TestCommand>::new();
    assert!(cc.is_empty());
}

#[test]
fn command_compound_command_append_if_can_execute() {
    let (a, _) = test_cmd("a");
    let mut cc = CompoundCommand::new();
    assert!(cc.append_if_can_execute(a));
    assert!(!cc.is_empty());
}

#[test]
fn command_compound_command_unwrap_empty() {
    let cc = CompoundCommand::<TestCommand>::new();
    let mut u = cc.unwrap();
    assert!(!u.can_execute());
}

#[test]
fn command_compound_command_unwrap_one() {
    let (a, _) = test_cmd("a");
    let mut cc = CompoundCommand::new();
    cc.append(a);
    let mut u = cc.unwrap();
    assert!(u.can_execute());
}

#[test]
fn compound_command_unwrap_many() {
    let (a, _) = test_cmd("a");
    let (b, _) = test_cmd("b");
    let mut cc = CompoundCommand::new();
    cc.append(a);
    cc.append(b);
    let u = cc.unwrap();
    match u {
        UnwrappedCommand::Compound(c) => assert_eq!(c.command_count(), 2),
        _ => panic!("expected the compound itself"),
    }
}

// ---- UnexecutableCommand ------------------------------------------------

#[test]
fn command_unexecutable_command_label() {
    let u = UnexecutableCommand::<String>::instance();
    assert_eq!(u.get_label(), UNEXECUTABLE_DEFAULT_LABEL);
}

// ---- IdentityCommand ------------------------------------------------------

#[test]
fn command_identity_command_can_execute() {
    let mut i = IdentityCommand::<String>::instance();
    assert!(i.can_execute());
    i.execute();
    i.undo();
    i.redo();
}

#[test]
fn command_identity_command_result_empty() {
    let i = IdentityCommand::<String>::instance();
    assert_eq!(i.get_result().len(), 0);
}

#[test]
fn command_identity_command_result_singleton() {
    let cmd = IdentityCommand::with_result_singleton("hello".to_string());
    let res = cmd.get_result();
    assert_eq!(res.len(), 1);
    assert_eq!(res[0], "hello");
}

#[test]
fn identity_command_result_collection() {
    let cmd = IdentityCommand::with_result(vec!["a".to_string(), "42".to_string()]);
    let res = cmd.get_result();
    assert_eq!(res.len(), 2);
}

#[test]
fn command_identity_command_label_description() {
    let i = IdentityCommand::<String>::instance();
    assert_eq!(i.get_label(), IDENTITY_DEFAULT_LABEL);
    assert_eq!(i.get_description(), IDENTITY_DEFAULT_DESCRIPTION);
}

#[test]
fn identity_command_label_override() {
    let cmd = IdentityCommand::<String>::with_label("custom");
    assert_eq!(cmd.get_label(), "custom");
}

// ---- CommandWrapper -------------------------------------------------------

#[test]
fn command_command_wrapper_delegates_execute() {
    let (inner, s) = test_cmd("inner");
    let mut w = CommandWrapper::new(inner);
    assert!(w.can_execute());
    w.execute();
    assert!(s.borrow().executed);
    w.undo();
    assert!(s.borrow().undone);
    w.redo();
    assert!(s.borrow().redone);
}

#[test]
fn command_command_wrapper_can_undo_delegates() {
    let (inner, _) = test_cmd("inner");
    let w = CommandWrapper::new(inner);
    assert!(w.can_undo());
}

#[test]
fn command_wrapper_null_command() {
    let mut w = CommandWrapper::<TestCommand, _>::empty();
    assert!(!w.can_execute());
    w.execute();
    w.undo();
    w.redo();
    assert_eq!(w.get_result().len(), 0);
}

#[test]
fn command_command_wrapper_get_label_delegates() {
    let (inner, _) = test_cmd("inner-label");
    let w = CommandWrapper::new(inner);
    assert_eq!(w.get_label(), "inner-label");
}

#[test]
fn command_wrapper_get_label_override() {
    let (inner, _) = test_cmd("inner");
    let w = CommandWrapper::with_label("override", inner);
    assert_eq!(w.get_label(), "override");
}

#[test]
fn command_command_wrapper_lazy_create() {
    let created = Rc::new(Cell::new(false));
    let sink = Rc::new(RefCell::new(None));
    let mut w = CommandWrapper::lazy(LazyFactory { created: created.clone(), sink: sink.clone() });
    assert!(w.can_execute());
    assert!(created.get());
    assert!(w.can_execute());
    w.execute();
    assert!(w.get_command().is_some());
    let state = sink.borrow().clone().expect("lazy command created");
    assert!(state.borrow().executed);
}

// ---- StrictCompoundCommand ------------------------------------------------

#[test]
fn strict_compound_command_empty_cannot_execute() {
    let mut sc = StrictCompoundCommand::<TestCommand>::new();
    assert!(!sc.can_execute());
}

#[test]
fn strict_compound_command_basic_execute() {
    let (a, sa) = test_cmd("a");
    let (b, sb) = test_cmd("b");
    let mut sc = StrictCompoundCommand::new();
    sc.append(a);
    sc.append(b);
    assert!(sc.can_execute());
    sc.execute();
    assert!(sa.borrow().executed);
    assert!(sb.borrow().executed);
    sc.undo();
    assert!(sb.borrow().undone);
}

#[test]
fn strict_compound_command_pessimistic() {
    let (a, sa) = test_cmd("a");
    let (b, sb) = test_cmd("b");
    let mut sc = StrictCompoundCommand::new();
    sc.set_is_pessimistic(true);
    sc.append(a);
    sc.append(b);
    assert!(sc.can_execute());
    sc.execute();
    assert!(sa.borrow().executed);
    assert!(sb.borrow().executed);
    sc.undo();
    assert!(!sa.borrow().executed);
    assert!(!sb.borrow().executed);
}

#[test]
fn strict_compound_command_append_and_execute() {
    let (c, state) = test_cmd("c");
    let mut sc = StrictCompoundCommand::new();
    assert!(sc.append_and_execute(c));
    assert_eq!(sc.command_count(), 1);
    assert!(state.borrow().executed);
}

// ---- BasicCommandStack ------------------------------------------------------

#[test]
fn command_basic_command_stack_execute_adds_command() {
    let mut stack: Stack = BasicCommandStack::new();
    let (cmd, s) = test_cmd("a");
    stack.execute(Some(cmd));
    assert!(stack.get_undo_command().is_some());
    assert!(Rc::ptr_eq(&stack.get_undo_command().unwrap().state, &s));
    assert!(stack.can_undo());
    assert!(!stack.can_redo());
    stack.flush();
}

#[test]
fn command_basic_command_stack_undo_redo() {
    let mut stack: Stack = BasicCommandStack::new();
    let (cmd, s) = test_cmd("a");
    stack.execute(Some(cmd));
    assert!(stack.can_undo());
    stack.undo();
    assert!(s.borrow().undone);
    assert!(!stack.can_undo());
    assert!(stack.can_redo());
    stack.redo();
    assert!(s.borrow().redone);
    stack.flush();
}

#[test]
fn command_basic_command_stack_redo_clears_ahead() {
    let mut stack: Stack = BasicCommandStack::new();
    let (a, _) = test_cmd("a");
    let (b, _) = test_cmd("b");
    stack.execute(Some(a));
    stack.undo();
    stack.execute(Some(b));
    assert!(!stack.can_redo());
    assert!(stack.can_undo());
    assert!(stack.get_undo_command().is_some());
    stack.flush();
}

#[test]
fn command_basic_command_stack_most_recent() {
    let mut stack: Stack = BasicCommandStack::new();
    let (a, _) = test_cmd("a");
    let (b, _) = test_cmd("b");
    stack.execute(Some(a));
    stack.execute(Some(b));
    assert!(stack.get_most_recent_command().is_some());
    stack.flush();
}

#[test]
fn command_basic_command_stack_flush_clears() {
    let mut stack: Stack = BasicCommandStack::new();
    let (a, _) = test_cmd("a");
    stack.execute(Some(a));
    stack.flush();
    assert!(stack.get_undo_command().is_none());
    assert!(stack.get_redo_command().is_none());
    assert!(stack.get_most_recent_command().is_none());
    assert!(!stack.can_undo());
    assert!(!stack.can_redo());
}

#[test]
fn command_basic_command_stack_listener_notified() {
    let mut stack: Stack = BasicCommandStack::new();
    let (l, count) = listener();
    stack.add_command_stack_listener(l.clone());
    let (a, _) = test_cmd("a");
    stack.execute(Some(a));
    assert_eq!(count.get(), 1);
    stack.undo();
    assert_eq!(count.get(), 2);
    stack.remove_command_stack_listener(&l);
    let (b, _) = test_cmd("b");
    stack.execute(Some(b));
    assert_eq!(count.get(), 2);
    stack.flush();
}

#[test]
fn command_basic_command_stack_save_index() {
    let mut stack: Stack = BasicCommandStack::new();
    let (a, _) = test_cmd("a");
    let (b, _) = test_cmd("b");
    stack.execute(Some(a));
    stack.save_is_done();
    assert!(!stack.is_save_needed());
    stack.execute(Some(b));
    assert!(stack.is_save_needed());
    stack.undo();
    assert!(!stack.is_save_needed());
    stack.flush();
}

#[test]
fn command_basic_command_stack_null_command_ignored() {
    let mut stack: Stack = BasicCommandStack::new();
    stack.execute(None);
    assert!(stack.get_undo_command().is_none());
    assert!(!stack.can_undo());
}

// ---- the same behaviour, scenario by scenario ---------------------------------

#[test]
fn cpp_parity_common_command_abstract_command_prepare_defaults_to_false() {
    let mut cmd = EmptyCmd::make();
    assert!(!cmd.can_execute());
}

#[test]
fn cpp_parity_common_command_abstract_command_can_execute_cached() {
    let (mut cmd, _) = test_cmd("test");
    assert!(cmd.can_execute());
    assert!(cmd.can_execute());
}

#[test]
fn cpp_parity_common_command_abstract_command_get_label_default() {
    let ec = EmptyCmd::make();
    assert_eq!(ec.get_label(), ABSTRACT_DEFAULT_LABEL);
}

#[test]
fn cpp_parity_common_command_abstract_command_get_description_default() {
    let ec = EmptyCmd::make();
    assert_eq!(ec.get_description(), ABSTRACT_DEFAULT_DESCRIPTION);
}

#[test]
fn cpp_parity_common_command_abstract_command_chain() {
    let (a, _) = test_cmd("a");
    let (b, _) = test_cmd("b");
    let mut chained = a.chain(b);
    assert!(chained.can_execute());
    chained.execute();
}

#[test]
fn cpp_parity_common_command_compound_command_empty_cannot_execute() {
    let mut cc = CompoundCommand::<TestCommand>::new();
    assert!(!cc.can_execute());
    assert!(cc.is_empty());
}

#[test]
fn cpp_parity_common_command_compound_command_basic_execution() {
    let (a, af) = test_cmd("a");
    let (b, bf) = test_cmd("b");
    let mut cc = CompoundCommand::new();
    cc.append(a);
    cc.append(b);
    assert!(!cc.is_empty());
    assert_eq!(cc.command_count(), 2);
    assert!(cc.can_execute());
    cc.execute();
    assert!(af.borrow().executed);
    assert!(bf.borrow().executed);
    cc.undo();
    assert!(!af.borrow().executed);
    assert!(!bf.borrow().executed);
    cc.redo();
    assert!(af.borrow().executed);
    assert!(bf.borrow().executed);
}

#[test]
fn cpp_parity_common_command_compound_command_label_from_last() {
    let (a, _) = test_cmd("labelA");
    let (b, _) = test_cmd("labelB");
    let mut cc = CompoundCommand::new();
    cc.append(a);
    cc.append(b);
    assert_eq!(cc.get_label(), "labelB");
}

#[test]
fn cpp_parity_common_command_compound_command_append_null_ignored() {
    let cc = CompoundCommand::<TestCommand>::new();
    assert!(cc.is_empty());
}

#[test]
fn cpp_parity_common_command_compound_command_append_if_can_execute() {
    let (a, _) = test_cmd("a");
    let mut cc = CompoundCommand::new();
    assert!(cc.append_if_can_execute(a));
    assert!(!cc.is_empty());
}

#[test]
fn cpp_parity_common_command_compound_command_unwrap_empty() {
    let cc = CompoundCommand::<TestCommand>::new();
    let mut u = cc.unwrap();
    assert!(!u.can_execute());
}

#[test]
fn cpp_parity_common_command_compound_command_unwrap_one() {
    let (a, _) = test_cmd("a");
    let mut cc = CompoundCommand::new();
    cc.append(a);
    let mut u = cc.unwrap();
    assert!(u.can_execute());
}

#[test]
fn strict_compound_empty_cannot_execute() {
    let mut sc = StrictCompoundCommand::<TestCommand>::new();
    assert!(!sc.can_execute());
}

#[test]
fn strict_compound_basic_execute() {
    let (a, af) = test_cmd("a");
    let (b, bf) = test_cmd("b");
    let mut sc = StrictCompoundCommand::new();
    sc.append(a);
    sc.append(b);
    assert!(sc.can_execute());
    sc.execute();
    assert!(af.borrow().executed);
    assert!(bf.borrow().executed);
    sc.undo();
    assert!(af.borrow().executed);
    assert!(!bf.borrow().executed);
}

#[test]
fn strict_compound_pessimistic() {
    let (a, af) = test_cmd("a");
    let (b, bf) = test_cmd("b");
    let mut sc = StrictCompoundCommand::new();
    sc.set_is_pessimistic(true);
    sc.append(a);
    sc.append(b);
    assert!(sc.can_execute());
    sc.execute();
    assert!(af.borrow().executed);
    assert!(bf.borrow().executed);
    sc.undo();
    assert!(!af.borrow().executed);
    assert!(!bf.borrow().executed);
}

#[test]
fn strict_compound_append_and_execute() {
    let mut sc = StrictCompoundCommand::new();
    let (c, cf) = test_cmd("c");
    assert!(sc.append_and_execute(c));
    assert_eq!(sc.command_count(), 1);
    assert!(cf.borrow().executed);
}

#[test]
fn cpp_parity_common_command_unexecutable_command_cannot_execute() {
    let mut u = UnexecutableCommand::<String>::instance();
    assert!(!u.can_execute());
    assert!(!u.can_undo());
}

#[test]
fn cpp_parity_common_command_unexecutable_command_label() {
    let u = UnexecutableCommand::<String>::instance();
    assert_eq!(u.get_label(), UNEXECUTABLE_DEFAULT_LABEL);
}

#[test]
fn cpp_parity_common_command_identity_command_can_execute() {
    let mut i = IdentityCommand::<String>::instance();
    assert!(i.can_execute());
    i.execute();
    i.undo();
    i.redo();
}

#[test]
fn cpp_parity_common_command_identity_command_result_empty() {
    let i = IdentityCommand::<String>::instance();
    assert!(i.get_result().is_empty());
}

#[test]
fn cpp_parity_common_command_identity_command_result_singleton() {
    let i = IdentityCommand::with_result_singleton("hello".to_string());
    let res = i.get_result();
    assert_eq!(res.len(), 1);
    assert_eq!(res[0], "hello");
}

#[test]
fn cpp_parity_common_command_identity_command_label_description() {
    let i = IdentityCommand::<String>::instance();
    assert_eq!(i.get_label(), IDENTITY_DEFAULT_LABEL);
    assert_eq!(i.get_description(), IDENTITY_DEFAULT_DESCRIPTION);
}

#[test]
fn cpp_parity_common_command_command_wrapper_delegates_execute() {
    let (inner, f) = test_cmd("inner");
    let mut w = CommandWrapper::new(inner);
    assert!(w.can_execute());
    w.execute();
    assert!(f.borrow().executed);
    w.undo();
    assert!(!f.borrow().executed);
    w.redo();
    assert!(f.borrow().executed);
}

#[test]
fn cpp_parity_common_command_command_wrapper_can_undo_delegates() {
    let (inner, _) = test_cmd("inner");
    let w = CommandWrapper::new(inner);
    assert!(w.can_undo());
}

#[test]
fn command_wrapper_empty_command() {
    let mut w = CommandWrapper::<TestCommand, _>::empty();
    assert!(!w.can_execute());
    w.execute();
    w.undo();
    w.redo();
    assert!(w.get_result().is_empty());
}

#[test]
fn cpp_parity_common_command_command_wrapper_get_label_delegates() {
    let (inner, _) = test_cmd("inner-label");
    let w = CommandWrapper::new(inner);
    assert_eq!(w.get_label(), "inner-label");
}

#[test]
fn cpp_parity_common_command_command_wrapper_lazy_create() {
    let created = Rc::new(Cell::new(false));
    let sink = Rc::new(RefCell::new(None));
    let mut w = CommandWrapper::lazy(LazyFactory { created: created.clone(), sink: sink.clone() });
    assert!(w.can_execute());
    assert!(created.get());
    assert!(w.can_execute());
    w.execute();
    assert!(w.get_command().is_some());
    assert!(sink.borrow().is_some());
}

#[test]
fn cpp_parity_common_command_basic_command_stack_execute_adds_command() {
    let mut stack: Stack = BasicCommandStack::new();
    let (cmd, f) = test_cmd("a");
    stack.execute(Some(cmd));
    assert!(stack.get_undo_command().is_some());
    assert!(f.borrow().executed);
    assert!(stack.can_undo());
    assert!(!stack.can_redo());
    stack.flush();
}

#[test]
fn cpp_parity_common_command_basic_command_stack_undo_redo() {
    let mut stack: Stack = BasicCommandStack::new();
    let (cmd, f) = test_cmd("a");
    stack.execute(Some(cmd));
    assert!(stack.can_undo());
    stack.undo();
    assert!(!f.borrow().executed);
    assert!(!stack.can_undo());
    assert!(stack.can_redo());
    stack.redo();
    assert!(stack.can_undo());
    stack.flush();
}

#[test]
fn cpp_parity_common_command_basic_command_stack_redo_clears_ahead() {
    let mut stack: Stack = BasicCommandStack::new();
    let (a, _) = test_cmd("a");
    let (b, _) = test_cmd("b");
    stack.execute(Some(a));
    stack.undo();
    stack.execute(Some(b));
    assert!(!stack.can_redo());
    assert!(stack.can_undo());
    stack.flush();
}

#[test]
fn cpp_parity_common_command_basic_command_stack_most_recent() {
    let mut stack: Stack = BasicCommandStack::new();
    let (a, _) = test_cmd("a");
    let (b, bs) = test_cmd("b");
    stack.execute(Some(a));
    stack.execute(Some(b));
    let most = stack.get_most_recent_command().expect("some");
    assert!(Rc::ptr_eq(&most.state, &bs));
    stack.flush();
}

#[test]
fn cpp_parity_common_command_basic_command_stack_flush_clears() {
    let mut stack: Stack = BasicCommandStack::new();
    let (a, _) = test_cmd("a");
    stack.execute(Some(a));
    stack.flush();
    assert!(stack.get_undo_command().is_none());
    assert!(stack.get_redo_command().is_none());
    assert!(stack.get_most_recent_command().is_none());
    assert!(!stack.can_undo());
    assert!(!stack.can_redo());
}

#[test]
fn cpp_parity_common_command_basic_command_stack_listener_notified() {
    let mut stack: Stack = BasicCommandStack::new();
    let count = Rc::new(Cell::new(0));
    let listener: Rc<dyn CommandStackListener> = Rc::new(StackListener { count: count.clone() });
    stack.add_command_stack_listener(listener.clone());
    let (a, _) = test_cmd("a");
    stack.execute(Some(a));
    assert_eq!(count.get(), 1);
    stack.undo();
    assert_eq!(count.get(), 2);
    stack.remove_command_stack_listener(&listener);
    let (b, _) = test_cmd("b");
    stack.execute(Some(b));
    assert_eq!(count.get(), 2);
    stack.flush();
}

#[test]
fn cpp_parity_common_command_basic_command_stack_save_index() {
    let mut stack: Stack = BasicCommandStack::new();
    let (a, _) = test_cmd("a");
    let (b, _) = test_cmd("b");
    stack.execute(Some(a));
    stack.save_is_done();
    assert!(!stack.is_save_needed());
    stack.execute(Some(b));
    assert!(stack.is_save_needed());
    stack.undo();
    assert!(!stack.is_save_needed());
    stack.flush();
}

#[test]
fn cpp_parity_common_command_basic_command_stack_null_command_ignored() {
    let mut stack: Stack = BasicCommandStack::new();
    stack.execute(None);
    assert!(stack.get_undo_command().is_none());
    assert!(!stack.can_undo());
}

// ---- laws and edge cases on concrete values -------------------------------

#[test]
fn stack_undo_then_redo_restores_top() {
    let mut stack: Stack = BasicCommandStack::new();
    let (a, sa) = test_cmd("a");
    let (b, sb) = test_cmd("b");
    stack.execute(Some(a));
    stack.execute(Some(b));
    stack.undo();
    assert!(Rc::ptr_eq(&stack.get_undo_command().unwrap().state, &sa));
    assert!(Rc::ptr_eq(&stack.get_redo_command().unwrap().state, &sb));
    stack.redo();
    assert!(Rc::ptr_eq(&stack.get_undo_command().unwrap().state, &sb));
    assert!(stack.get_redo_command().is_none());
    assert!(Rc::ptr_eq(&stack.get_most_recent_command().unwrap().state, &sb));
}

#[test]
fn stack_execute_after_undo_past_save_loses_save_point() {
    let mut stack: Stack = BasicCommandStack::new();
    let (a, _) = test_cmd("a");
    let (b, _) = test_cmd("b");
    stack.execute(Some(a));
    stack.save_is_done();
    stack.undo();
    assert!(stack.is_save_needed());
    stack.execute(Some(b));
    assert!(stack.is_save_needed());
    stack.undo();
    assert!(stack.is_save_needed());
    stack.save_is_done();
    assert!(!stack.is_save_needed());
}

#[test]
fn stack_refuses_command_that_cannot_execute() {
    let mut stack: Stack = BasicCommandStack::new();
    let (a, sa) = TestCommand::make_with("a", false);
    let (l, count) = listener();
    stack.add_command_stack_listener(l);
    stack.execute(Some(a));
    assert!(!sa.borrow().executed);
    assert!(stack.get_undo_command().is_none());
    assert_eq!(count.get(), 0);
}

#[test]
fn stack_push_executed_records_top() {
    let mut stack: Stack = BasicCommandStack::new();
    let (mut a, sa) = test_cmd("a");
    assert!(a.can_execute());
    stack.push_executed(a);
    assert!(stack.can_undo());
    assert!(Rc::ptr_eq(&stack.get_undo_command().unwrap().state, &sa));
    assert!(stack.is_save_needed());
}

#[test]
fn compound_merges_results_in_order() {
    let mut cc = CompoundCommand::new();
    cc.append(result_cmd("a", &["x", "y"]));
    cc.append(result_cmd("b", &["z"]));
    assert_eq!(cc.get_result(), vec!["x".to_string(), "y".to_string(), "z".to_string()]);
    let mut last = CompoundCommand::with_result_index(LAST_COMMAND_ALL);
    last.append(result_cmd("a", &["x", "y"]));
    last.append(result_cmd("b", &["z"]));
    assert_eq!(last.get_result(), vec!["z".to_string()]);
    let mut first = CompoundCommand::with_result_index(0);
    first.append(result_cmd("a", &["x", "y"]));
    first.append(result_cmd("b", &["z"]));
    assert_eq!(first.get_result(), vec!["x".to_string(), "y".to_string()]);
    assert_eq!(first.get_label(), "a");
    let mut out_of_range = CompoundCommand::with_result_index(5);
    out_of_range.append(result_cmd("a", &["x"]));
    assert!(out_of_range.get_result().is_empty());
    assert_eq!(out_of_range.get_label(), COMPOUND_DEFAULT_LABEL);
}

#[test]
fn compound_with_failing_command_cannot_execute() {
    let (a, _) = test_cmd("a");
    let (b, _) = TestCommand::make_with("b", false);
    let mut cc = CompoundCommand::new();
    cc.append(a);
    cc.append(b);
    assert!(!cc.can_execute());
    assert!(!cc.append_if_can_execute(TestCommand::make_with("c", false).0));
    assert_eq!(cc.command_count(), 2);
}

#[test]
fn strict_compound_stops_at_failing_command() {
    let (a, sa) = test_cmd("a");
    let (b, _) = TestCommand::make_with("b", false);
    let (c, sc_state) = test_cmd("c");
    let mut sc = StrictCompoundCommand::new();
    sc.append(a);
    sc.append(b);
    sc.append(c);
    assert!(!sc.can_execute());
    assert!(sa.borrow().executed);
    assert!(!sc_state.borrow().executed);
}

#[test]
fn strict_compound_pessimistic_prepare_undoes() {
    let (a, sa) = test_cmd("a");
    let (b, sb) = test_cmd("b");
    let mut sc = StrictCompoundCommand::new();
    sc.set_is_pessimistic(true);
    sc.append(a);
    sc.append(b);
    assert!(sc.prepare_internal());
    assert!(sa.borrow().undone);
    assert!(!sb.borrow().executed);
    assert!(sc.is_undoable());
}

#[test]
fn wrapper_without_command_uses_default_label() {
    let w = CommandWrapper::<TestCommand, _>::empty();
    assert_eq!(w.get_label(), WRAPPER_DEFAULT_LABEL);
}

use artop::emf_common::command::{
    AbortExecutionException, CommandStackListener, CommandStackListenerAlias,
};
use artop::emf_common::diagnostic::{Diagnostic, DiagnosticChain, Severity};
use artop::emf_common::uri::Uri;
use artop::emf_common::uriconverter::{UriConverter, UriHandler};
use std::cell::Cell;
use std::rc::Rc;

#[test]
fn severity_cascade() {
    let mut root = Diagnostic::new(Severity::Okay, "src", 0, "root");
    assert_eq!(root.severity(), Severity::Okay);
    root.add(Diagnostic::warning("src", "warn"));
    assert_eq!(root.severity(), Severity::Warning);
    root.add(Diagnostic::error("src", "err"));
    assert_eq!(root.severity(), Severity::Error);
    assert_eq!(root.children().len(), 2);
}

#[test]
fn chain_collects() {
    let mut ch = DiagnosticChain::new();
    assert!(ch.is_empty());
    ch.add(Diagnostic::error("src", "boom"));
    ch.add(Diagnostic::warning("src", "warn"));
    assert_eq!(ch.len(), 2);
    assert_eq!(ch.worst(), Some(Severity::Error));
}

#[test]
fn handler_resolves_against_base() {
    let mut h = UriHandler::new();
    h.set_base_uri(Uri::parse("file:///a/b/c.xmi"));
    let r = h.resolve(&Uri::parse("../d.x"));
    assert_eq!(r.path(), "/a/b/d.x");
}

#[test]
fn abort_execution_exception_default_constructor() {
    let e = AbortExecutionException::new();
    assert_eq!(e.message(), "");
}

#[test]
fn abort_execution_exception_message_constructor() {
    let e = AbortExecutionException::with_message("aborted");
    assert_eq!(e.message(), "aborted");
}

struct StackListener {
    count: Rc<Cell<i32>>,
}

impl CommandStackListener for StackListener {
    fn command_stack_changed(&self) {
        self.count.set(self.count.get() + 1);
    }
}

fn takes_alias<T: CommandStackListenerAlias>(_t: &T) -> bool {
    true
}

#[test]
fn command_stack_listener_type_alias() {
    let count = Rc::new(Cell::new(0));
    let l = StackListener { count: count.clone() };
    let a: &dyn CommandStackListener = &l;
    a.command_stack_changed();
    assert_eq!(count.get(), 1);
    assert!(takes_alias(&l));
}

#[test]
fn abort_exception_default_constructor() {
    let ex = AbortExecutionException::new();
    assert_eq!(ex.message(), "");
}

#[test]
fn abort_exception_message_constructor() {
    let ex = AbortExecutionException::with_message("aborted");
    assert_eq!(ex.message(), "aborted");
}

#[test]
fn abort_exception_display() {
    let ex = AbortExecutionException::with_message("abort");
    assert_eq!(ex.to_string(), "abort");
}

// Own tests.

#[test]
fn abort_exception_default_is_empty() {
    let ex = AbortExecutionException::default();
    assert_eq!(ex.message(), "");
    assert_eq!(ex, AbortExecutionException::new());
}

#[test]
fn severity_names_and_ranks() {
    assert_eq!(Severity::Okay.name(), "OK");
    assert_eq!(Severity::Info.to_string(), "INFO");
    assert_eq!(Severity::Warning.name(), "WARNING");
    assert_eq!(Severity::Error.name(), "ERROR");
    assert_eq!(Severity::Cancel.name(), "CANCEL");
    assert!(Severity::Okay.rank() < Severity::Cancel.rank());
}

#[test]
fn adding_a_milder_child_keeps_severity() {
    let mut root = Diagnostic::error("src", "root");
    root.add(Diagnostic::warning("src", "w"));
    assert_eq!(root.severity(), Severity::Error);
    assert_eq!(root.children()[0].message(), "w");
}

#[test]
fn add_all_takes_children_and_worst_severity() {
    let mut other = Diagnostic::new(Severity::Info, "o", 1, "other");
    other.add(Diagnostic::error("o", "e"));
    other.add(Diagnostic::warning("o", "w"));
    let mut root = Diagnostic::new(Severity::Okay, "r", 0, "root");
    root.add_all(&other);
    assert_eq!(root.children().len(), 2);
    assert_eq!(root.severity(), Severity::Error);
}

#[test]
fn diagnostic_accessors() {
    let d = Diagnostic::new(Severity::Info, "plugin", 7, "msg");
    assert_eq!(d.source(), "plugin");
    assert_eq!(d.code(), 7);
    assert_eq!(d.message(), "msg");
    assert!(d.children().is_empty());
    let c = d.duplicate();
    assert_eq!(c.message(), "msg");
    assert_eq!(c.severity(), Severity::Info);
}

#[test]
fn empty_chain_has_no_worst_and_clear_empties() {
    let mut ch = DiagnosticChain::new();
    assert_eq!(ch.worst(), None);
    ch.add(Diagnostic::new(Severity::Cancel, "s", 0, "c"));
    ch.add(Diagnostic::error("s", "e"));
    assert_eq!(ch.worst(), Some(Severity::Cancel));
    assert_eq!(ch.get().len(), 2);
    ch.clear();
    assert!(ch.is_empty());
}

#[test]
fn converter_map_uri_read_after_write() {
    let mut c = UriConverter::new();
    c.map_uri("platform:/a", "file:///x/a");
    c.map_uri("platform:/b", "file:///x/b");
    c.map_uri("platform:/a", "file:///y/a");
    let n = c.normalize(&Uri::parse("platform:/a"));
    assert_eq!(n.to_string(), "file:///y/a");
    let m = c.normalize(&Uri::parse("platform:/b"));
    assert_eq!(m.to_string(), "file:///x/b");
    assert_eq!(c.uri_map().len(), 2);
}

#[test]
fn converter_resolve_and_deresolve() {
    let c = UriConverter::new();
    let base = Uri::parse("file:///a/b/c.xmi");
    let r = c.resolve(&Uri::parse("d.xmi"), &base);
    assert_eq!(r.to_string(), "file:///a/b/d.xmi");
    let d = c.deresolve(&Uri::parse("file:///a/b/e.xmi"), &base);
    assert_eq!(d.to_string(), "../e.xmi");
}

#[test]
fn handler_without_base_returns_input() {
    let h = UriHandler::new();
    assert!(h.base_uri().is_none());
    let u = Uri::parse("x/y");
    assert_eq!(h.resolve(&u).to_string(), "x/y");
    assert_eq!(h.deresolve(&u).to_string(), "x/y");
}

#[test]
fn parse_accepted_refuses_leading_colon() {
    assert!(Uri::parse_accepted("file:///x"));
    assert!(Uri::parse_accepted("a#:b"));
    assert!(!Uri::parse_accepted(":x"));
    assert!(!Uri::parse_accepted(":x?y"));
}

#[test]
fn normalizable_checks_mapped_value() {
    let mut c = UriConverter::new();
    c.map_uri("logical:/a", ":broken");
    assert!(!c.normalizable(&Uri::parse("logical:/a")));
    assert!(c.normalizable(&Uri::parse("logical:/b")));
    c.map_uri("logical:/a", "file:///ok");
    assert!(c.normalizable(&Uri::parse("logical:/a")));
}

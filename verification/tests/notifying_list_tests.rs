use artop::emf_common::elist::NotifyingList;
use artop::emf_common::notification::{
    Adapter, EventType, Notification, NotificationValue, Notifier,
};
use std::cell::RefCell;
use std::rc::Rc;

/// The values the notifications of these tests carry.
#[derive(Debug, Clone, PartialEq)]
enum Val {
    Null,
    Int(i64),
    String(String),
    List(Vec<Val>),
}

impl NotificationValue for Val {
    fn null_value() -> Val {
        Val::Null
    }
    fn list_value(items: Vec<Val>) -> Val {
        Val::List(items)
    }
    fn object_key(&self) -> Option<usize> {
        None
    }
}

impl From<i32> for Val {
    fn from(v: i32) -> Val {
        Val::Int(v as i64)
    }
}

impl From<String> for Val {
    fn from(v: String) -> Val {
        Val::String(v)
    }
}

struct RecordingCb {
    events: Rc<RefCell<Vec<Notification<Val>>>>,
}

impl Adapter<Val> for RecordingCb {
    fn notify_changed(&mut self, notification: &Notification<Val>) {
        self.events.borrow_mut().push(notification.clone());
    }
}

type Events = Rc<RefCell<Vec<Notification<Val>>>>;

/// An active notifier with one recording adapter, and the adapter's buffer.
fn recording_env() -> (Notifier<RecordingCb, Val>, Events) {
    let mut n = Notifier::new();
    let events = Rc::new(RefCell::new(Vec::new()));
    n.add_adapter(RecordingCb { events: Rc::clone(&events) });
    (n, events)
}

type IntList = NotifyingList<i32, RecordingCb, Val>;
type StringList = NotifyingList<String, RecordingCb, Val>;

#[test]
fn notifying_basic_add_remove() {
    let mut list: IntList = NotifyingList::new();
    list.add(1);
    list.add(2);
    list.add(3);
    assert_eq!(list.len(), 3);
    assert_eq!(list.get(0), Some(&1));
    assert_eq!(list.get(2), Some(&3));
    assert_eq!(list.remove(1), Some(2));
    assert_eq!(list.len(), 2);
}

#[test]
fn notifying_default_get_notifier_is_null() {
    let list: IntList = NotifyingList::new();
    assert!(list.get_notifier_is_null());
    assert_eq!(list.get_feature_id(), -1);
}

#[test]
fn notifying_dispatch_add() {
    let (n, ev) = recording_env();
    let mut list: IntList = NotifyingList::with_notifier(n);
    list.add(100);
    let rec = ev.borrow();
    assert_eq!(rec.len(), 1);
    assert_eq!(rec[0].event(), EventType::Add);
    assert_eq!(rec[0].position, 0);
    assert_eq!(rec[0].new_value, Val::Int(100));
}

#[test]
fn notifying_dispatch_add_at_index() {
    let (n, ev) = recording_env();
    let mut list: IntList = NotifyingList::with_notifier(n);
    list.add(1);
    list.add(2);
    ev.borrow_mut().clear();
    list.add_at_index(1, 99);
    let rec = ev.borrow();
    assert_eq!(rec.len(), 1);
    assert_eq!(rec[0].event(), EventType::Add);
    assert_eq!(rec[0].position, 1);
    assert_eq!(rec[0].new_value, Val::Int(99));
}

#[test]
fn notifying_dispatch_remove() {
    let (n, ev) = recording_env();
    let mut list: StringList = NotifyingList::with_notifier(n);
    list.add(String::from("hello"));
    list.add(String::from("world"));
    ev.borrow_mut().clear();
    assert_eq!(list.remove(0), Some(String::from("hello")));
    let rec = ev.borrow();
    assert_eq!(rec.len(), 1);
    assert_eq!(rec[0].event(), EventType::Remove);
    assert_eq!(rec[0].position, 0);
    assert_eq!(rec[0].old_value, Val::String("hello".into()));
}

#[test]
fn notifying_dispatch_set() {
    let (n, ev) = recording_env();
    let mut list: IntList = NotifyingList::with_notifier(n);
    list.add(1);
    list.add(2);
    ev.borrow_mut().clear();
    assert_eq!(list.set(1, 200), Some(2));
    let rec = ev.borrow();
    assert_eq!(rec.len(), 1);
    assert_eq!(rec[0].event(), EventType::SetValue);
    assert_eq!(rec[0].position, 1);
    assert_eq!(rec[0].old_value, Val::Int(2));
    assert_eq!(rec[0].new_value, Val::Int(200));
}

#[test]
fn notifying_dispatch_move() {
    let (n, ev) = recording_env();
    let mut list: IntList = NotifyingList::with_notifier(n);
    list.add(10);
    list.add(20);
    list.add(30);
    ev.borrow_mut().clear();
    assert_eq!(list.move_element(0, 2), Some(30));
    let rec = ev.borrow();
    assert_eq!(rec.len(), 1);
    assert_eq!(rec[0].event(), EventType::Move);
    assert_eq!(rec[0].position, 0);
    assert_eq!(rec[0].new_value, Val::Int(30));
}

#[test]
fn notifying_dispatch_clear() {
    let (n, ev) = recording_env();
    let mut list: IntList = NotifyingList::with_notifier(n);
    list.add(1);
    list.add(2);
    list.add(3);
    ev.borrow_mut().clear();
    list.clear();
    assert!(list.is_empty());
    let rec = ev.borrow();
    assert_eq!(rec.len(), 1);
    assert_eq!(rec[0].event(), EventType::RemoveMany);
}

#[test]
fn notifying_no_notification_when_not_required() {
    let (_n, ev) = recording_env();
    let mut list: IntList = NotifyingList::new();
    list.add(1);
    list.add(2);
    list.add(3);
    list.remove(0);
    list.set(0, 99);
    list.clear();
    assert_eq!(ev.borrow().len(), 0);
}

#[test]
fn notifying_dispatch_add_all_many() {
    let (n, ev) = recording_env();
    let mut list: IntList = NotifyingList::with_notifier(n);
    list.add_all(vec![7, 8, 9]);
    let rec = ev.borrow();
    assert_eq!(rec.len(), 1);
    assert_eq!(rec[0].event(), EventType::AddMany);
    assert_eq!(rec[0].position, 0);
    match &rec[0].new_value {
        Val::List(l) => {
            assert_eq!(l, &vec![Val::Int(7), Val::Int(8), Val::Int(9)]);
        }
        other => panic!("expected a list value, got {other:?}"),
    }
}

#[test]
fn notifying_dispatch_add_all_single() {
    let (n, ev) = recording_env();
    let mut list: IntList = NotifyingList::with_notifier(n);
    list.add_all(vec![42]);
    let rec = ev.borrow();
    assert_eq!(rec.len(), 1);
    assert_eq!(rec[0].event(), EventType::Add);
    assert_eq!(rec[0].new_value, Val::Int(42));
}

#[test]
fn notifying_out_of_range_changes_nothing() {
    let (n, ev) = recording_env();
    let mut list: IntList = NotifyingList::with_notifier(n);
    list.add(1);
    ev.borrow_mut().clear();
    assert_eq!(list.remove(5), None);
    assert_eq!(list.set(5, 2), None);
    assert_eq!(list.move_element(0, 5), None);
    assert_eq!(list.len(), 1);
    assert!(ev.borrow().is_empty());
    assert!(list.contains(&1));
    assert!(!list.contains(&2));
}

#[test]
fn notifying_move_forward_lands_at_target() {
    let (n, ev) = recording_env();
    let mut list: IntList = NotifyingList::with_notifier(n);
    list.add_all(vec![10, 20, 30]);
    ev.borrow_mut().clear();
    assert_eq!(list.move_element(2, 0), Some(10));
    assert_eq!(list.get(0), Some(&20));
    assert_eq!(list.get(1), Some(&30));
    assert_eq!(list.get(2), Some(&10));
    assert_eq!(ev.borrow()[0].position, 2);
    assert!(!list.get_notifier_is_null());
    assert_eq!(list.get_feature_id(), 42);
}

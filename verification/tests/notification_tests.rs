use artop::emf_common::notification::{
    Adapter, EventType, Notification, NotificationChain, NotificationValue, Notifier,
};
use std::cell::{Cell, RefCell};
use std::rc::Rc;

// ---- fixtures ----------------------------------------------------------

/// A model object that notifications can refer to.
#[derive(Debug)]
struct Obj;

/// The values the notifications of these tests carry.
#[derive(Debug, Clone)]
enum Val {
    Null,
    Int(i64),
    String(String),
    Object(Rc<Obj>),
    List(Vec<Val>),
}

impl PartialEq for Val {
    fn eq(&self, other: &Val) -> bool {
        match (self, other) {
            (Val::Null, Val::Null) => true,
            (Val::Int(a), Val::Int(b)) => a == b,
            (Val::String(a), Val::String(b)) => a == b,
            (Val::Object(a), Val::Object(b)) => Rc::ptr_eq(a, b),
            (Val::List(a), Val::List(b)) => a == b,
            _ => false,
        }
    }
}

impl NotificationValue for Val {
    fn null_value() -> Val {
        Val::Null
    }
    fn list_value(items: Vec<Val>) -> Val {
        Val::List(items)
    }
    fn object_key(&self) -> Option<usize> {
        match self {
            Val::Object(o) => Some(Rc::as_ptr(o).addr()),
            _ => None,
        }
    }
}

fn obj() -> Rc<Obj> {
    Rc::new(Obj)
}

/// An adapter that logs `(id, event)` into a shared buffer.
struct Rec {
    id: u32,
    out: Rc<RefCell<Vec<(u32, EventType)>>>,
}

impl Adapter<Val> for Rec {
    fn notify_changed(&mut self, notification: &Notification<Val>) {
        self.out.borrow_mut().push((self.id, notification.event()));
    }
}

type RecNotifier = Notifier<Rec, Val>;

fn rec_with_id(out: &Rc<RefCell<Vec<(u32, EventType)>>>, id: u32) -> Rec {
    Rec { id, out: Rc::clone(out) }
}

fn log() -> Rc<RefCell<Vec<(u32, EventType)>>> {
    Rc::new(RefCell::new(vec![]))
}

fn set_evt(feature: Option<&str>, old: &str, new: &str) -> Notification<Val> {
    Notification::new(
        EventType::SetValue,
        feature.map(|s| s.to_string()),
        Val::String(old.into()),
        Val::String(new.into()),
        -1,
        false,
    )
}

fn add_evt(o: &Rc<Obj>) -> Notification<Val> {
    Notification::new(EventType::Add, None, Val::Null, Val::Object(Rc::clone(o)), 0, false)
}

fn remove_evt(o: &Rc<Obj>) -> Notification<Val> {
    Notification::new(EventType::Remove, None, Val::Object(Rc::clone(o)), Val::Null, 0, false)
}

/// An adapter that keeps the notifications it receives and its target in
/// shared cells, so both stay observable after it is dropped.
struct TargetedRec {
    seal: Rc<RefCell<Option<usize>>>,
    events: Rc<RefCell<Vec<Notification<Val>>>>,
}

impl Adapter<Val> for TargetedRec {
    fn notify_changed(&mut self, n: &Notification<Val>) {
        self.events.borrow_mut().push(n.clone());
    }
    fn target(&self) -> Option<usize> {
        *self.seal.borrow()
    }
    fn set_target(&mut self, t: Option<usize>) {
        *self.seal.borrow_mut() = t;
    }
}

fn targeted(events: &Rc<RefCell<Vec<Notification<Val>>>>) -> TargetedRec {
    TargetedRec { seal: Rc::new(RefCell::new(None)), events: Rc::clone(events) }
}

/// A recording adapter: counts deliveries and keeps copies of them.
struct Recording {
    id: u32,
    notifies: Rc<Cell<usize>>,
    received: Rc<RefCell<Vec<Notification<Val>>>>,
    target: Option<usize>,
}

impl Recording {
    fn new(id: u32) -> (Recording, Rc<Cell<usize>>, Rc<RefCell<Vec<Notification<Val>>>>) {
        let notifies = Rc::new(Cell::new(0));
        let received = Rc::new(RefCell::new(Vec::new()));
        let a = Recording { id, notifies: notifies.clone(), received: received.clone(), target: None };
        (a, notifies, received)
    }
}

impl Adapter<Val> for Recording {
    fn notify_changed(&mut self, n: &Notification<Val>) {
        self.notifies.set(self.notifies.get() + 1);
        self.received.borrow_mut().push(n.clone());
    }
    fn target(&self) -> Option<usize> {
        self.target
    }
    fn set_target(&mut self, t: Option<usize>) {
        self.target = t;
    }
}

type RecordingNotifier = Notifier<Recording, Val>;

fn set_not(event: EventType, old: Val, new: Val, pos: i32, was: bool) -> Notification<Val> {
    Notification::new(event, None, old, new, pos, was)
}

/// A model object holding a notifier and a container slot, so that setting
/// its container sends the reverse REMOVE/ADD notifications.
struct ContainerObj {
    notifier: Notifier<TargetedRec, Val>,
    container: Option<Rc<Obj>>,
}

impl ContainerObj {
    fn new() -> ContainerObj {
        ContainerObj { notifier: Notifier::new(), container: None }
    }
    fn set_e_container(&mut self, new: Rc<Obj>) {
        if let Some(old) = &self.container {
            if Rc::ptr_eq(old, &new) {
                return;
            }
        }
        let old = self.container.replace(Rc::clone(&new));
        if let Some(o) = old {
            let r = Notification::new(EventType::Remove, None, Val::Object(o), Val::Null, -1, false);
            self.notifier.e_notify(&r);
        }
        let a = Notification::new(EventType::Add, None, Val::Null, Val::Object(new), -1, false);
        self.notifier.e_notify(&a);
    }
}

fn targeted_child(events: &Rc<RefCell<Vec<Notification<Val>>>>) -> ContainerObj {
    let mut child = ContainerObj::new();
    child.notifier.add_adapter(targeted(events));
    child
}

// ---- Notifier ------------------------------------------------------------

#[test]
fn notifier_default_e_deliver_true() {
    let n = RecNotifier::new();
    assert!(n.e_deliver());
}

#[test]
fn notification_notifier_default_empty_adapters() {
    let n = RecNotifier::new();
    assert!(n.e_adapters().is_empty());
}

#[test]
fn notification_notifier_add_adapter_increases_size() {
    let out = log();
    let mut n = RecNotifier::new();
    n.add_adapter(rec_with_id(&out, 1));
    assert_eq!(n.adapters().len(), 1);
}

#[test]
fn notification_notifier_add_multiple_adapters() {
    let out = log();
    let mut n = RecNotifier::new();
    n.add_adapter(rec_with_id(&out, 1));
    n.add_adapter(rec_with_id(&out, 2));
    n.add_adapter(rec_with_id(&out, 3));
    assert_eq!(n.adapters().len(), 3);
}

#[test]
fn notification_notifier_remove_adapter_decreases_size() {
    let out = log();
    let mut n = RecNotifier::new();
    n.add_adapter(rec_with_id(&out, 1));
    assert_eq!(n.adapters().len(), 1);
    n.remove_adapter(|a| a.id == 1);
    assert_eq!(n.adapters().len(), 0);
}

#[test]
fn notification_notifier_remove_adapter_not_present_no_change() {
    let out = log();
    let mut n = RecNotifier::new();
    n.add_adapter(rec_with_id(&out, 1));
    n.remove_adapter(|a| a.id == 99);
    assert_eq!(n.adapters().len(), 1);
}

#[test]
fn notification_notifier_remove_adapter_middle_preserves_order() {
    let out = log();
    let mut n = RecNotifier::new();
    n.add_adapter(rec_with_id(&out, 1));
    n.add_adapter(rec_with_id(&out, 2));
    n.add_adapter(rec_with_id(&out, 3));
    n.remove_adapter(|a| a.id == 2);
    assert_eq!(n.adapters().len(), 2);
    assert_eq!(n.adapters().first().unwrap().id, 1);
    assert_eq!(n.adapters().last().unwrap().id, 3);
}

#[test]
fn notifier_eset_deliver_toggle() {
    let mut n = RecNotifier::new();
    assert!(n.e_deliver());
    n.e_set_deliver(false);
    assert!(!n.e_deliver());
    n.e_set_deliver(true);
    assert!(n.e_deliver());
}

#[test]
fn notifier_enotify_e_deliver_false_no_delivery() {
    let out = log();
    let mut n = RecNotifier::new();
    n.add_adapter(rec_with_id(&out, 1));
    n.e_set_deliver(false);
    n.e_notify(&set_evt(None, "old", "new"));
    assert!(out.borrow().is_empty());
}

#[test]
fn notifier_enotify_e_deliver_true_all() {
    let out = log();
    let mut n = RecNotifier::new();
    n.add_adapter(rec_with_id(&out, 1));
    n.add_adapter(rec_with_id(&out, 2));
    n.e_set_deliver(true);
    n.e_notify(&set_evt(None, "old", "new"));
    let rec = out.borrow();
    assert_eq!(rec.len(), 2);
    assert_eq!(rec[0], (1, EventType::SetValue));
    assert_eq!(rec[1], (2, EventType::SetValue));
}

#[test]
fn notifier_enotify_no_adapters_no_crash() {
    let mut n = RecNotifier::new();
    n.e_set_deliver(true);
    n.e_notify(&set_evt(None, "old", "new"));
}

#[test]
fn notifier_enotification_required_no_adapters_false() {
    let n = RecNotifier::new();
    assert!(!n.e_notification_required());
}

#[test]
fn notifier_enotification_required_deliver_false_false() {
    let out = log();
    let mut n = RecNotifier::new();
    n.add_adapter(rec_with_id(&out, 1));
    n.e_set_deliver(false);
    assert!(!n.e_notification_required());
}

#[test]
fn notifier_enotification_required_deliver_true_true() {
    let out = log();
    let mut n = RecNotifier::new();
    n.add_adapter(rec_with_id(&out, 1));
    n.e_set_deliver(true);
    assert!(n.e_notification_required());
}

#[test]
fn notifier_remove_adapter_notifies_remaining() {
    let out = log();
    let mut n = RecNotifier::new();
    n.e_set_deliver(true);
    n.add_adapter(rec_with_id(&out, 1));
    n.add_adapter(rec_with_id(&out, 2));
    n.remove_adapter(|a| a.id == 1);
    let rec = out.borrow();
    let ids: Vec<(u32, EventType)> = rec.iter().filter(|(i, _)| *i == 2).cloned().collect();
    assert_eq!(ids, vec![(2, EventType::RemovingAdapter)]);
}

#[test]
fn notifier_remove_adapter_e_deliver_false_no_notification() {
    let out = log();
    let mut n = RecNotifier::new();
    n.e_set_deliver(false);
    n.add_adapter(rec_with_id(&out, 1));
    n.add_adapter(rec_with_id(&out, 2));
    n.remove_adapter(|a| a.id == 1);
    assert!(out.borrow().is_empty());
    assert_eq!(n.adapters().len(), 1);
}

// ---- Notification ------------------------------------------------------------

#[test]
fn notification_notification_was_set_default_false() {
    let n = Notification::new(EventType::SetValue, None, Val::Null, Val::Int(1), -1, false);
    assert!(!n.was_set());
}

#[test]
fn notification_was_set_constructor_and_setter() {
    let mut n = Notification::new(EventType::SetValue, None, Val::Null, Val::Int(1), -1, true);
    assert!(n.was_set());
    n.set_was_set(false);
    assert!(!n.was_set());
}

// ---- NotificationChain ------------------------------------------------------

#[test]
fn chain_set_set_merges_keeps_earliest_old_and_latest_new() {
    let mut ch = NotificationChain::new();
    ch.add(set_evt(None, "first", "a"));
    ch.add(set_evt(None, "b", "second"));
    assert_eq!(ch.len(), 1);
    let n = &ch.notifications()[0];
    assert_eq!(n.old_value, Val::String("first".into()));
    assert_eq!(n.new_value, Val::String("second".into()));
}

#[test]
fn notification_chain_add_remove_cancels() {
    let o = obj();
    let mut ch = NotificationChain::new();
    ch.add(add_evt(&o));
    assert_eq!(ch.len(), 1);
    ch.add(remove_evt(&o));
    assert_eq!(ch.len(), 0);
}

#[test]
fn notification_chain_add_remove_different_object_not_cancelled() {
    let o1 = obj();
    let o2 = obj();
    let mut ch = NotificationChain::new();
    ch.add(add_evt(&o1));
    ch.add(remove_evt(&o2));
    assert_eq!(ch.len(), 2);
}

#[test]
fn chain_merge_drains_source_and_merges() {
    let mut ch = NotificationChain::new();
    ch.add(set_evt(None, "first", "a"));
    let mut other = vec![set_evt(None, "b", "second")];
    ch.merge(&mut other);
    assert!(other.is_empty());
    assert_eq!(ch.len(), 1);
}

#[test]
fn chain_merge_append_all_for_different_features() {
    let mut ch = NotificationChain::new();
    ch.add(set_evt(Some("a"), "0", "1"));
    let mut other = vec![set_evt(Some("b"), "0", "1")];
    ch.merge(&mut other);
    assert_eq!(ch.len(), 2);
}

#[test]
fn chain_merge_add_remove_cancels() {
    let o = obj();
    let mut ch = NotificationChain::new();
    ch.add(add_evt(&o));
    let mut other = vec![remove_evt(&o)];
    ch.merge(&mut other);
    assert!(other.is_empty());
    assert_eq!(ch.len(), 0);
}

#[test]
fn chain_merge_then_dispatch_delivers_merged() {
    let out = log();
    let mut n = RecNotifier::new();
    n.add_adapter(rec_with_id(&out, 1));
    n.e_set_deliver(true);
    let mut ch = NotificationChain::new();
    ch.add(set_evt(None, "old1", "v1"));
    let mut other = vec![set_evt(None, "v1", "v2")];
    ch.merge(&mut other);
    assert_eq!(ch.len(), 1);
    ch.dispatch(&mut n);
    let rec = out.borrow();
    assert_eq!(rec.len(), 1);
    assert_eq!(rec[0].1, EventType::SetValue);
}

// ---- adapter targets ----------------------------------------------------------

#[test]
fn adapter_default_target_null() {
    let a = targeted(&Rc::new(RefCell::new(vec![])));
    assert!(a.target().is_none());
}

#[test]
fn adapter_set_target_returns_same() {
    let mut a = targeted(&Rc::new(RefCell::new(vec![])));
    a.set_target(Some(42));
    assert_eq!(a.target(), Some(42));
}

#[test]
fn notifier_add_adapter_sets_target() {
    let seal: Rc<RefCell<Option<usize>>> = Rc::new(RefCell::new(None));
    let mut n: Notifier<TargetedRec, Val> = Notifier::new();
    n.add_adapter(TargetedRec { seal: Rc::clone(&seal), events: Rc::new(RefCell::new(vec![])) });
    let addr = std::ptr::from_ref(&n).addr();
    assert_eq!(*seal.borrow(), Some(addr));
}

#[test]
fn notifier_remove_adapter_clears_target() {
    let seal: Rc<RefCell<Option<usize>>> = Rc::new(RefCell::new(None));
    let events: Rc<RefCell<Vec<Notification<Val>>>> = Rc::new(RefCell::new(vec![]));
    let mut n: Notifier<TargetedRec, Val> = Notifier::new();
    n.add_adapter(TargetedRec { seal: Rc::clone(&seal), events: Rc::clone(&events) });
    assert!(seal.borrow().is_some());
    n.remove_adapter(|_| true);
    assert_eq!(*seal.borrow(), None);
}

#[test]
fn notifier_enotify_preserves_event_fields() {
    let events: Rc<RefCell<Vec<Notification<Val>>>> = Rc::new(RefCell::new(vec![]));
    let mut n: Notifier<TargetedRec, Val> = Notifier::new();
    n.add_adapter(targeted(&events));
    n.e_set_deliver(true);
    let evt = Notification::new(
        EventType::Add,
        None,
        Val::String("x".into()),
        Val::String("y".into()),
        3,
        false,
    );
    n.e_notify(&evt);
    let rec = events.borrow();
    assert_eq!(rec.len(), 1);
    assert_eq!(rec[0].event(), EventType::Add);
    assert_eq!(rec[0].position, 3);
    assert!(rec[0].feature().is_none());
    assert_eq!(rec[0].old_value, Val::String("x".into()));
    assert_eq!(rec[0].new_value, Val::String("y".into()));
}

// ---- reverse containment notifications ------------------------------------

#[test]
fn eobject_set_e_container_fires_reverse_add() {
    let events: Rc<RefCell<Vec<Notification<Val>>>> = Rc::new(RefCell::new(vec![]));
    let mut child = targeted_child(&events);
    let parent = obj();
    child.set_e_container(parent.clone());
    let rec = events.borrow();
    assert_eq!(rec.len(), 1);
    assert_eq!(rec[0].event(), EventType::Add);
    assert!(rec[0].feature().is_none());
    assert!(matches!(&rec[0].new_value, Val::Object(o) if Rc::ptr_eq(o, &parent)));
}

#[test]
fn eobject_set_e_container_switch_fires_remove_then_add() {
    let events: Rc<RefCell<Vec<Notification<Val>>>> = Rc::new(RefCell::new(vec![]));
    let mut child = targeted_child(&events);
    let p1 = obj();
    let p2 = obj();
    child.set_e_container(p1.clone());
    child.set_e_container(p2.clone());
    let rec = events.borrow();
    assert_eq!(rec.len(), 3);
    assert_eq!(rec[1].event(), EventType::Remove);
    assert!(matches!(&rec[1].old_value, Val::Object(o) if Rc::ptr_eq(o, &p1)));
    assert_eq!(rec[2].event(), EventType::Add);
    assert!(matches!(&rec[2].new_value, Val::Object(o) if Rc::ptr_eq(o, &p2)));
}

#[test]
fn eobject_set_e_container_same_container_no_notification() {
    let events: Rc<RefCell<Vec<Notification<Val>>>> = Rc::new(RefCell::new(vec![]));
    let mut child = targeted_child(&events);
    let parent = obj();
    child.set_e_container(parent.clone());
    child.set_e_container(parent.clone());
    assert_eq!(events.borrow().len(), 1);
}

// ---- scenario suite ------------------------------------------------------

#[test]
fn notifier_default_deliver_true() {
    let n = RecordingNotifier::new();
    assert!(n.e_deliver());
}

#[test]
fn cpp_parity_common_enotifier_notifier_default_empty_adapters() {
    let n = RecordingNotifier::new();
    assert!(n.e_adapters().is_empty());
    assert_eq!(n.e_adapters().len(), 0);
}

#[test]
fn cpp_parity_common_enotifier_notifier_add_adapter_increases_size() {
    let mut n = RecordingNotifier::new();
    let (a, _, _) = Recording::new(1);
    n.add_adapter(a);
    assert_eq!(n.e_adapters().len(), 1);
    assert_eq!(n.e_adapters()[0].id, 1);
}

#[test]
fn cpp_parity_common_enotifier_notifier_add_multiple_adapters() {
    let mut n = RecordingNotifier::new();
    let (a1, _, _) = Recording::new(1);
    let (a2, _, _) = Recording::new(2);
    let (a3, _, _) = Recording::new(3);
    n.add_adapter(a1);
    n.add_adapter(a2);
    n.add_adapter(a3);
    assert_eq!(n.e_adapters().len(), 3);
    assert_eq!(n.e_adapters()[0].id, 1);
    assert_eq!(n.e_adapters()[1].id, 2);
    assert_eq!(n.e_adapters()[2].id, 3);
}

#[test]
fn notifier_add_adapter_distinct_instances() {
    let mut n = RecordingNotifier::new();
    let (a1, _, _) = Recording::new(1);
    let (a2, _, _) = Recording::new(2);
    n.add_adapter(a1);
    n.add_adapter(a2);
    assert_eq!(n.e_adapters().len(), 2);
}

#[test]
fn cpp_parity_common_enotifier_notifier_remove_adapter_decreases_size() {
    let mut n = RecordingNotifier::new();
    let (a, _, _) = Recording::new(1);
    n.add_adapter(a);
    assert_eq!(n.e_adapters().len(), 1);
    n.remove_adapter(|r| r.id == 1);
    assert_eq!(n.e_adapters().len(), 0);
}

#[test]
fn cpp_parity_common_enotifier_notifier_remove_adapter_not_present_no_change() {
    let mut n = RecordingNotifier::new();
    let (a1, _, _) = Recording::new(1);
    n.add_adapter(a1);
    n.remove_adapter(|r| r.id == 2);
    assert_eq!(n.e_adapters().len(), 1);
}

#[test]
fn notifier_remove_adapter_empty_predicate_no_change() {
    let mut n = RecordingNotifier::new();
    let (a, _, _) = Recording::new(1);
    n.add_adapter(a);
    n.remove_adapter(|_| false);
    assert_eq!(n.e_adapters().len(), 1);
}

#[test]
fn cpp_parity_common_enotifier_notifier_remove_adapter_middle_preserves_order() {
    let mut n = RecordingNotifier::new();
    let (a1, _, _) = Recording::new(1);
    let (a2, _, _) = Recording::new(2);
    let (a3, _, _) = Recording::new(3);
    n.add_adapter(a1);
    n.add_adapter(a2);
    n.add_adapter(a3);
    n.remove_adapter(|r| r.id == 2);
    assert_eq!(n.e_adapters().len(), 2);
    assert_eq!(n.e_adapters()[0].id, 1);
    assert_eq!(n.e_adapters()[1].id, 3);
}

#[test]
fn notifier_set_deliver_toggle() {
    let mut n = RecordingNotifier::new();
    assert!(n.e_deliver());
    n.e_set_deliver(false);
    assert!(!n.e_deliver());
    n.e_set_deliver(true);
    assert!(n.e_deliver());
}

#[test]
fn notifier_e_notify_deliver_false_no_delivery() {
    let mut n = RecordingNotifier::new();
    let (_, notifies, _) = Recording::new(1);
    n.add_adapter(Recording {
        id: 1,
        notifies: notifies.clone(),
        received: Rc::new(RefCell::new(Vec::new())),
        target: None,
    });
    n.e_set_deliver(false);
    let evt = set_not(EventType::SetValue, Val::Null, Val::Null, -1, false);
    n.e_notify(&evt);
    assert_eq!(notifies.get(), 0);
}

#[test]
fn notifier_e_notify_deliver_true_delivered_to_all() {
    let mut n = RecordingNotifier::new();
    let (a1, c1, _) = Recording::new(1);
    let (a2, c2, _) = Recording::new(2);
    n.add_adapter(a1);
    n.add_adapter(a2);
    n.e_set_deliver(true);
    let evt = set_not(EventType::SetValue, Val::Null, Val::Null, -1, false);
    n.e_notify(&evt);
    assert_eq!(c1.get(), 1);
    assert_eq!(c2.get(), 1);
}

#[test]
fn notifier_e_notify_no_adapters_no_crash() {
    let mut n = RecordingNotifier::new();
    n.e_set_deliver(true);
    let evt = set_not(EventType::Add, Val::Null, Val::Null, -1, false);
    n.e_notify(&evt);
}

#[test]
fn notifier_e_notify_preserves_event_fields() {
    let mut n = RecordingNotifier::new();
    let (_, notifies, received) = Recording::new(1);
    n.add_adapter(Recording {
        id: 1,
        notifies: notifies.clone(),
        received: received.clone(),
        target: None,
    });
    n.e_set_deliver(true);
    let evt = Notification::new(
        EventType::Add,
        None,
        Val::String("x".into()),
        Val::String("y".into()),
        3,
        false,
    );
    n.e_notify(&evt);
    let received = received.borrow();
    assert_eq!(received.len(), 1);
    let r = &received[0];
    assert_eq!(r.event(), EventType::Add);
    assert_eq!(r.feature(), None);
    assert_eq!(r.position, 3);
    assert_eq!(r.new_value, Val::String("y".into()));
    assert_eq!(r.old_value, Val::String("x".into()));
}

#[test]
fn notification_required_no_adapters_false() {
    let n = RecordingNotifier::new();
    assert!(!n.e_notification_required());
}

#[test]
fn notification_required_adapter_but_no_deliver_false() {
    let mut n = RecordingNotifier::new();
    let (a, _, _) = Recording::new(1);
    n.add_adapter(a);
    n.e_set_deliver(false);
    assert!(!n.e_notification_required());
}

#[test]
fn notification_required_adapter_and_deliver_true() {
    let mut n = RecordingNotifier::new();
    let (a, _, _) = Recording::new(1);
    n.add_adapter(a);
    n.e_set_deliver(true);
    assert!(n.e_notification_required());
}

#[test]
fn remove_adapter_notifies_remaining_adapters() {
    let mut n = RecordingNotifier::new();
    n.e_set_deliver(true);
    let (a1, _, _) = Recording::new(1);
    let (a2, _, a2r) = Recording::new(2);
    n.add_adapter(a1);
    n.add_adapter(a2);
    n.remove_adapter(|r| r.id == 1);
    let r = a2r.borrow();
    assert_eq!(r.len(), 1);
    assert_eq!(r[0].event(), EventType::RemovingAdapter);
}

#[test]
fn remove_adapter_deliver_false_no_removal_notification() {
    let mut n = RecordingNotifier::new();
    n.e_set_deliver(false);
    let (a1, _, _) = Recording::new(1);
    let (a2, _, a2r) = Recording::new(2);
    n.add_adapter(a1);
    n.add_adapter(a2);
    n.remove_adapter(|r| r.id == 1);
    assert!(a2r.borrow().is_empty());
    assert_eq!(n.e_adapters().len(), 1);
    assert_eq!(n.e_adapters()[0].id, 2);
}

#[test]
fn adapter_default_target_none() {
    let (a, _, _) = Recording::new(1);
    assert_eq!(a.target(), None);
}

#[test]
fn add_adapter_sets_target() {
    let mut n = RecordingNotifier::new();
    let (a, _, _) = Recording::new(1);
    n.add_adapter(a);
    let this_addr = std::ptr::from_ref(&n).addr();
    assert_eq!(n.e_adapters()[0].target(), Some(this_addr));
}

#[test]
fn remove_adapter_clears_target() {
    let mut n = RecordingNotifier::new();
    let (a, _, _) = Recording::new(1);
    n.add_adapter(a);
    let this_addr = std::ptr::from_ref(&n).addr();
    assert_eq!(n.e_adapters()[0].target(), Some(this_addr));
    n.remove_adapter(|r| r.id == 1);
    assert!(n.e_adapters().is_empty());
}

#[test]
fn cpp_parity_common_enotifier_chain_add_remove_cancels() {
    let o1 = obj();
    let mut chain = NotificationChain::new();
    chain.add(Notification::new(EventType::Add, None, Val::Null, Val::Object(o1.clone()), 0, false));
    assert_eq!(chain.len(), 1);
    chain.add(Notification::new(EventType::Remove, None, Val::Object(o1), Val::Null, 0, false));
    assert_eq!(chain.len(), 0);
}

#[test]
fn cpp_parity_common_enotifier_chain_add_remove_different_object_not_cancelled() {
    let (o1, o2) = (obj(), obj());
    let mut chain = NotificationChain::new();
    chain.add(Notification::new(EventType::Add, None, Val::Null, Val::Object(o1), 0, false));
    chain.add(Notification::new(EventType::Remove, None, Val::Object(o2), Val::Null, 0, false));
    assert_eq!(chain.len(), 2);
}

#[test]
fn chain_set_set_merges() {
    let mut chain = NotificationChain::new();
    chain.add(set_not(EventType::SetValue, Val::String("first".into()), Val::String("a".into()), -1, false));
    chain.add(set_not(EventType::SetValue, Val::String("b".into()), Val::String("second".into()), -1, false));
    assert_eq!(chain.len(), 1);
}

#[test]
fn chain_merge_vector_merges_set_set() {
    let mut chain = NotificationChain::new();
    chain.add(set_not(EventType::SetValue, Val::String("first".into()), Val::String("a".into()), -1, false));
    let mut other =
        vec![set_not(EventType::SetValue, Val::String("b".into()), Val::String("second".into()), -1, false)];
    chain.merge(&mut other);
    assert_eq!(chain.len(), 1);
    assert!(other.is_empty());
}

#[test]
fn chain_merge_vector_add_remove_cancels() {
    let o = obj();
    let mut chain = NotificationChain::new();
    chain.add(Notification::new(EventType::Add, None, Val::Null, Val::Object(o.clone()), 0, false));
    let mut other = vec![Notification::new(EventType::Remove, None, Val::Object(o), Val::Null, 0, false)];
    chain.merge(&mut other);
    assert_eq!(chain.len(), 0);
}

#[test]
fn chain_merge_dispatch_delivers_merged() {
    let (a, notifies, received) = Recording::new(1);
    let mut n = RecordingNotifier::new();
    n.add_adapter(a);
    n.e_set_deliver(true);
    let mut chain = NotificationChain::new();
    chain.add(set_not(EventType::SetValue, Val::String("old1".into()), Val::String("v1".into()), -1, false));
    let mut other =
        vec![set_not(EventType::SetValue, Val::String("v1".into()), Val::String("v2".into()), -1, false)];
    chain.merge(&mut other);
    assert_eq!(chain.len(), 1);
    chain.dispatch(&mut n);
    assert_eq!(notifies.get(), 1);
    let r = &received.borrow()[0];
    assert_eq!(r.old_value, Val::String("old1".into()));
    assert_eq!(r.new_value, Val::String("v2".into()));
}

#[test]
fn cpp_parity_common_enotifier_notification_was_set_default_false() {
    let ng = set_not(EventType::SetValue, Val::Null, Val::Null, -1, false);
    assert!(!ng.was_set());
}

#[test]
fn notification_was_set_constructor_and_toggle() {
    let mut ng = set_not(EventType::SetValue, Val::Null, Val::Null, -1, true);
    assert!(ng.was_set());
    ng.set_was_set(false);
    assert!(!ng.was_set());
}

// ---- laws and edge cases on concrete values -------------------------------

#[test]
fn chain_set_then_set_other_feature_appends() {
    let mut ch = NotificationChain::new();
    ch.add(set_evt(Some("a"), "0", "1"));
    ch.add(set_evt(Some("a"), "1", "2"));
    ch.add(set_evt(Some("b"), "x", "y"));
    assert_eq!(ch.len(), 2);
    assert_eq!(ch.notifications()[0].old_value, Val::String("0".into()));
    assert_eq!(ch.notifications()[0].new_value, Val::String("2".into()));
    assert_eq!(ch.notifications()[1].feature(), Some("b"));
}

#[test]
fn chain_add_remove_other_position_not_cancelled() {
    let o = obj();
    let mut ch = NotificationChain::new();
    ch.add(add_evt(&o));
    ch.add(Notification::new(EventType::Remove, None, Val::Object(o), Val::Null, 1, false));
    assert_eq!(ch.len(), 2);
}

#[test]
fn chain_add_then_remove_restores_earlier_chain() {
    let o = obj();
    let mut ch = NotificationChain::new();
    ch.add(set_evt(Some("name"), "a", "b"));
    ch.add(add_evt(&o));
    ch.add(remove_evt(&o));
    assert_eq!(ch.len(), 1);
    assert_eq!(ch.notifications()[0].new_value, Val::String("b".into()));
}

#[test]
fn chain_dispatch_empties_chain() {
    let out = log();
    let mut n = RecNotifier::new();
    n.add_adapter(rec_with_id(&out, 7));
    let mut ch = NotificationChain::new();
    ch.add(set_evt(Some("a"), "0", "1"));
    ch.add(set_evt(Some("b"), "0", "1"));
    ch.dispatch(&mut n);
    assert!(ch.is_empty());
    assert_eq!(out.borrow().len(), 2);
}

#[test]
fn notifier_default_has_delivery_off() {
    let n: RecNotifier = Default::default();
    assert!(!n.e_deliver());
    assert!(n.adapters().is_empty());
}

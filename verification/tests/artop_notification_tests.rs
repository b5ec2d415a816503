use artop::artop_common::feature_map::{FeatureMap, FeatureMapEntry};
use artop::artop_common::notification::{Adapter, EventType, Notification, NotificationChain, Notifier};
use std::cell::RefCell;
use std::rc::Rc;

/// The values these tests attach to notifications and feature-map entries.
#[derive(Debug, Clone, PartialEq)]
enum Val {
    Null,
    Int(i64),
    String(String),
}

struct Rec {
    seen: Rc<RefCell<Vec<EventType>>>,
}

impl Adapter<Val> for Rec {
    fn notify_changed(&mut self, n: &Notification<Val>) {
        self.seen.borrow_mut().push(n.event());
    }
}

#[test]
fn notifier_dispatches() {
    let mut n = Notifier::new();
    let seen: Rc<RefCell<Vec<EventType>>> = Rc::new(RefCell::new(Vec::new()));
    n.add_adapter(Rec { seen: Rc::clone(&seen) });
    n.e_notify(&Notification::new(
        EventType::SetValue,
        Some("x".into()),
        Val::Null,
        Val::Int(1),
        -1,
        true,
    ));
    assert_eq!(seen.borrow().as_slice(), &[EventType::SetValue]);
}

#[test]
fn chain_merges_consecutive_sets() {
    let mut ch = NotificationChain::new();
    ch.add(Notification::new(EventType::SetValue, Some("a".into()), Val::Int(0), Val::Int(1), -1, true));
    ch.add(Notification::new(EventType::SetValue, Some("a".into()), Val::Int(1), Val::Int(2), -1, true));
    assert_eq!(ch.len(), 1);
    ch.add(Notification::new(EventType::Add, None, Val::Null, Val::Int(9), 0, false));
    assert_eq!(ch.len(), 2);
}

#[test]
fn feature_map_filters() {
    let mut m = FeatureMap::new();
    m.add(FeatureMapEntry::new("arPackages", Val::String("p1".into())));
    m.add(FeatureMapEntry::new("adminData", Val::String("d".into())));
    assert_eq!(m.len(), 2);
    assert_eq!(m.list("arPackages").len(), 1);
    assert!(m.has_feature("adminData"));
    m.remove_by_feature("arPackages");
    assert!(!m.has_feature("arPackages"));
    assert_eq!(m.len(), 1);
}

// ---- edge cases and laws on concrete values --------------------------------

#[test]
fn chain_set_merge_delivers_both_sets_once() {
    let out: Rc<RefCell<Vec<EventType>>> = Rc::new(RefCell::new(Vec::new()));
    let mut n = Notifier::new();
    n.add_adapter(Rec { seen: Rc::clone(&out) });
    let mut ch = NotificationChain::new();
    ch.add(Notification::new(EventType::SetValue, Some("a".into()), Val::Int(0), Val::Int(1), -1, true));
    ch.add(Notification::new(EventType::SetValue, Some("a".into()), Val::Int(5), Val::Int(2), -1, false));
    ch.add(Notification::new(EventType::SetValue, Some("b".into()), Val::Int(0), Val::Int(3), -1, false));
    assert_eq!(ch.len(), 2);
    ch.dispatch(&mut n);
    assert!(ch.is_empty());
    assert_eq!(out.borrow().len(), 2);
}

#[test]
fn notifier_remove_and_delivery_switch() {
    let a: Rc<RefCell<Vec<EventType>>> = Rc::new(RefCell::new(Vec::new()));
    let b: Rc<RefCell<Vec<EventType>>> = Rc::new(RefCell::new(Vec::new()));
    let mut n = Notifier::new();
    n.add_adapter(Rec { seen: Rc::clone(&a) });
    n.add_adapter(Rec { seen: Rc::clone(&b) });
    n.remove_adapter(|r| Rc::ptr_eq(&r.seen, &a));
    assert_eq!(n.adapters().len(), 1);
    n.set_deliver(false);
    assert!(!n.deliver());
    n.e_notify(&Notification::new(EventType::Add, None, Val::Null, Val::Int(1), 0, false));
    assert!(b.borrow().is_empty());
    n.set_deliver(true);
    n.e_notify(&Notification::new(EventType::Add, None, Val::Null, Val::Int(1), 0, false));
    assert_eq!(b.borrow().len(), 1);
    assert!(a.borrow().is_empty());
    let d: Notifier<Rec> = Default::default();
    assert!(!d.deliver());
}

#[test]
fn feature_map_list_keeps_order_and_values() {
    let mut m = FeatureMap::new();
    m.add(FeatureMapEntry::new("a", Val::Int(1)));
    m.add(FeatureMapEntry::new("b", Val::Int(2)));
    m.add(FeatureMapEntry::new("a", Val::Int(3)));
    let l = m.list("a");
    assert_eq!(l.len(), 2);
    assert_eq!(l[0].value, Val::Int(1));
    assert_eq!(l[1].value, Val::Int(3));
    assert!(m.list("c").is_empty());
    m.remove_by_feature("a");
    assert_eq!(m.entries().len(), 1);
    assert_eq!(m.entries()[0].feature, "b");
    assert!(FeatureMap::<Val>::new_const().is_empty());
}

struct Values {
    seen: Rc<RefCell<Vec<(Val, Val)>>>,
}

impl Adapter<Val> for Values {
    fn notify_changed(&mut self, n: &Notification<Val>) {
        self.seen.borrow_mut().push((n.old_value.clone(), n.new_value.clone()));
    }
}

#[test]
fn chain_set_merge_keeps_earliest_old_value() {
    let seen: Rc<RefCell<Vec<(Val, Val)>>> = Rc::new(RefCell::new(Vec::new()));
    let mut n = Notifier::new();
    n.add_adapter(Values { seen: Rc::clone(&seen) });
    let mut ch = NotificationChain::new();
    ch.add(Notification::new(EventType::SetValue, Some("a".into()), Val::Int(0), Val::Int(1), -1, true));
    ch.add(Notification::new(EventType::SetValue, Some("a".into()), Val::Int(1), Val::Int(2), -1, true));
    assert_eq!(ch.len(), 1);
    ch.dispatch(&mut n);
    assert_eq!(seen.borrow().as_slice(), &[(Val::Int(0), Val::Int(2))]);
}

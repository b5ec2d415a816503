use artop::emf_common::elist::{
    BasicEList, EList, FastCompareUniqueEList, ListChange, ListChangeHook, UniqueDuplicateError,
    UniqueEList,
};
use std::cell::RefCell;
use std::rc::Rc;

struct Recorder {
    events: Rc<RefCell<Vec<ListChange>>>,
}

impl ListChangeHook for Recorder {
    fn list_changed(&mut self, change: ListChange) {
        self.events.borrow_mut().push(change);
    }
}

#[derive(Default)]
struct Counts {
    adds: usize,
    removes: usize,
    sets: usize,
    last_add: i64,
    last_remove: i64,
    last_set: i64,
}

struct Counter {
    counts: Rc<RefCell<Counts>>,
}

impl ListChangeHook for Counter {
    fn list_changed(&mut self, change: ListChange) {
        let mut c = self.counts.borrow_mut();
        match change {
            ListChange::Add { index } => {
                c.adds += 1;
                c.last_add = index as i64;
            }
            ListChange::Remove { index } => {
                c.removes += 1;
                c.last_remove = index as i64;
            }
            ListChange::Replace { index } => {
                c.sets += 1;
                c.last_set = index as i64;
            }
            ListChange::Move { .. } => {}
        }
    }
}

#[test]
fn elist_basic_list_ops() {
    let mut l = BasicEList::new();
    l.add(1);
    l.add(2);
    l.add(3);
    assert_eq!(l.len(), 3);
    assert_eq!(l.get(1), Some(&2));
    assert_eq!(l.remove(0), Some(1));
    assert_eq!(l.len(), 2);
    assert!(l.contains(&3));
}

#[test]
fn elist_change_hook_fires() {
    let mut l = BasicEList::new();
    let events: Rc<RefCell<Vec<ListChange>>> = Rc::new(RefCell::new(Vec::new()));
    let sink = Rc::clone(&events);
    l.set_change_hook(Some(Box::new(Recorder { events: sink })));
    l.add(7);
    l.remove(0);
    assert_eq!(
        *events.borrow(),
        vec![ListChange::Add { index: 0 }, ListChange::Remove { index: 0 },]
    );
}

#[test]
fn elist_unique_add_deduplicates() {
    let mut l = BasicEList::new();
    l.add_unique(1);
    assert!(!l.add_unique(1));
    assert_eq!(l.len(), 1);
}

#[test]
fn operator_bracket_get_by_index() {
    let mut l = BasicEList::new();
    l.add(10);
    l.add(20);
    l.add(30);
    assert_eq!(l.get(0), Some(&10));
    assert_eq!(l.get(2), Some(&30));
    assert_eq!(l.get(3), None);
}

#[test]
fn set_replaces_element() {
    let mut l = BasicEList::new();
    l.add(1);
    l.add(2);
    l.add(3);
    assert_eq!(l.set(1, 99), Some(2));
    assert_eq!(l.get(1), Some(&99));
    assert_eq!(l.len(), 3);
    assert_eq!(l.set(5, 0), None);
}

#[test]
fn remove_by_index_and_value() {
    let mut l = BasicEList::new();
    l.add(1);
    l.add(2);
    l.add(1);
    assert_eq!(l.remove(0), Some(1));
    assert!(l.remove_value(&1));
    assert_eq!(l.as_slice(), [2]);
    assert!(!l.remove_value(&1));
    assert_eq!(l.as_slice(), [2]);
    assert!(!l.remove_value(&999));
}

#[test]
fn clear_empties_list() {
    let mut l = BasicEList::new();
    l.add(1);
    l.add(2);
    l.clear();
    assert!(l.is_empty());
    assert_eq!(l.len(), 0);
    l.clear();
    assert!(l.is_empty());
}

#[test]
fn iteration_yields_elements_in_order() {
    let mut l = BasicEList::new();
    l.add(5);
    l.add(6);
    l.add(7);
    let collected: Vec<i32> = l.iter().copied().collect();
    assert_eq!(collected, [5, 6, 7]);
}

#[test]
fn contains_and_index_of() {
    let mut l = BasicEList::new();
    l.add(1);
    l.add(2);
    l.add(3);
    assert!(l.contains(&2));
    assert!(!l.contains(&9));
    assert_eq!(l.index_of(&2), Some(1));
    assert_eq!(l.index_of(&9), None);
}

#[test]
fn unique_elist_add_deduplicates() {
    let mut l: UniqueEList<i32> = UniqueEList::new();
    l.add(1);
    l.add(2);
    l.add(1);
    assert_eq!(l.len(), 2);
    assert_eq!(l.get(0), Some(&1));
    assert_eq!(l.get(1), Some(&2));
    let from = UniqueEList::from_iter(vec![3, 4, 3, 5]);
    assert_eq!(from.len(), 3);
}

#[test]
fn elist_unique_elist_remove_and_clear() {
    let mut l: UniqueEList<i32> = UniqueEList::new();
    l.add(1);
    l.add(2);
    l.add(3);
    assert_eq!(l.remove(1), Some(2));
    assert_eq!(l.len(), 2);
    assert!(l.contains(&3));
    l.clear();
    assert!(l.is_empty());
}

#[test]
fn unique_elist_add_at_index_duplicate_throws() {
    let mut list: UniqueEList<i32> = UniqueEList::new();
    list.add(10);
    list.add(20);
    assert_eq!(list.try_add_at_index(1, 20), Err(UniqueDuplicateError::Duplicate));
    assert_eq!(list.len(), 2);
}

#[test]
fn elist_unique_elist_constructor_from_collection() {
    let list = UniqueEList::from_iter(vec![1, 2, 2, 3, 1, 4]);
    assert_eq!(list.len(), 4);
    assert_eq!(list.iter().copied().collect::<Vec<i32>>(), vec![1, 2, 3, 4]);
}

#[test]
fn unique_elist_constructor_with_capacity() {
    let mut list: UniqueEList<i32> = UniqueEList::with_capacity(100);
    assert_eq!(list.len(), 0);
    for i in 0..50 {
        list.add(i);
    }
    assert_eq!(list.len(), 50);
}

#[test]
fn unique_elist_fast_compare_identity_only() {
    let mut list: FastCompareUniqueEList<i32> = FastCompareUniqueEList::new();
    let a: i32 = 42;
    let b: i32 = 42;
    assert!(list.add(a));
    assert!(!list.add(b));
    assert_eq!(list.len(), 1);
    assert!(list.add(100));
    assert_eq!(list.len(), 2);
}

#[test]
fn unique_elist_is_basic_elist_subclass() {
    let list: UniqueEList<i32> = UniqueEList::new();
    let base = list.as_basic_elist();
    assert_eq!(base.len(), 0);
}

#[test]
fn elist_unique_elist_move() {
    let mut list: UniqueEList<i32> = UniqueEList::new();
    list.add(10);
    list.add(20);
    list.add(30);
    list.add(40);
    let moved = list.move_element(0, 2);
    assert_eq!(moved, Some(30));
    assert_eq!(list.get(0), Some(&30));
    assert_eq!(list.get(1), Some(&10));
    assert_eq!(list.get(2), Some(&20));
    assert_eq!(list.get(3), Some(&40));
}

#[test]
fn unique_elist_set_duplicate_throws() {
    let mut list: UniqueEList<i32> = UniqueEList::new();
    list.add(1);
    list.add(2);
    assert_eq!(list.try_set(1, 1), Err(UniqueDuplicateError::Duplicate));
    assert_eq!(list.get(1), Some(&2));
}

#[test]
fn elist_add_get_basic() {
    let mut list = BasicEList::new();
    list.add(1);
    list.add(2);
    list.add(3);
    assert_eq!(list.len(), 3);
    assert_eq!(*list.get(0).unwrap(), 1);
    assert_eq!(*list.get(1).unwrap(), 2);
    assert_eq!(*list.get(2).unwrap(), 3);
}

#[test]
fn elist_operator_bracket() {
    let mut list = BasicEList::new();
    list.add(10);
    list.add(20);
    assert_eq!(*list.get(0).unwrap(), 10);
    assert_eq!(*list.get(1).unwrap(), 20);
    list.set(1, 99);
    assert_eq!(*list.get(1).unwrap(), 99);
}

#[test]
fn elist_remove_by_index() {
    let mut list = BasicEList::new();
    list.add(1);
    list.add(2);
    list.add(3);
    assert_eq!(list.remove(1), Some(2));
    assert_eq!(list.len(), 2);
    assert_eq!(*list.get(0).unwrap(), 1);
    assert_eq!(*list.get(1).unwrap(), 3);
    assert_eq!(list.remove(99), None);
}

#[test]
fn elist_remove_by_value() {
    let mut list = BasicEList::new();
    list.add(10);
    list.add(20);
    list.add(30);
    assert!(list.remove_value(&20));
    assert_eq!(list.len(), 2);
    assert!(!list.remove_value(&99));
}

#[test]
fn elist_set() {
    let mut list = BasicEList::new();
    list.add(1);
    list.add(2);
    assert_eq!(list.set(0, 42), Some(1));
    assert_eq!(*list.get(0).unwrap(), 42);
    assert_eq!(list.set(99, 0), None);
}

#[test]
fn elist_contains_and_index_of() {
    let mut list: BasicEList<String> = BasicEList::new();
    list.add("a".into());
    list.add("b".into());
    list.add("c".into());
    assert!(list.contains(&"b".to_string()));
    assert!(!list.contains(&"z".to_string()));
    assert_eq!(list.index_of(&"a".to_string()), Some(0));
    assert_eq!(list.index_of(&"c".to_string()), Some(2));
    assert_eq!(list.index_of(&"not-there".to_string()), None);
}

#[test]
fn elist_add_unique() {
    let mut list = BasicEList::new();
    assert!(list.add_unique(1));
    assert!(list.add_unique(2));
    assert!(!list.add_unique(1));
    assert!(!list.add_unique(2));
    assert_eq!(list.len(), 2);
    assert!(list.contains(&1));
    assert!(list.contains(&2));
}

#[test]
fn elist_notifier_callbacks() {
    let counts = Rc::new(RefCell::new(Counts::default()));
    let mut list = BasicEList::new();
    list.set_change_hook(Some(Box::new(Counter { counts: counts.clone() })));
    list.add(1);
    list.add(2);
    list.add(3);
    {
        let c = counts.borrow();
        assert_eq!(c.adds, 3);
        assert_eq!(c.last_add, 2);
    }
    list.set(1, 99);
    {
        let c = counts.borrow();
        assert_eq!(c.sets, 1);
        assert_eq!(c.last_set, 1);
    }
    list.remove(0);
    {
        let c = counts.borrow();
        assert_eq!(c.removes, 1);
        assert_eq!(c.last_remove, 0);
    }
}

#[test]
fn elist_clear_empties() {
    let mut list = BasicEList::new();
    for i in 0..5 {
        list.add(i);
    }
    assert_eq!(list.len(), 5);
    list.clear();
    assert_eq!(list.len(), 0);
    assert!(list.is_empty());
}

#[test]
fn elist_iteration() {
    let mut list = BasicEList::new();
    list.add(10);
    list.add(20);
    list.add(30);
    assert_eq!(list.iter().sum::<i32>(), 60);
}

#[test]
fn elist_out_of_range_throws() {
    let mut list = BasicEList::new();
    list.add(1);
    assert_eq!(list.get(99), None);
}

#[test]
fn unique_elist_add_unique() {
    let mut list = BasicEList::new();
    assert!(list.add_unique(1));
    assert!(list.add_unique(2));
    assert!(list.add_unique(3));
    assert!(!list.add_unique(2));
    assert!(!list.add_unique(1));
    assert_eq!(list.len(), 3);
}

#[test]
fn unique_elist_add_all_drops_duplicates() {
    let mut list = BasicEList::new();
    for v in [1, 2, 2, 3, 1, 4, 4, 4] {
        list.add_unique(v);
    }
    assert_eq!(list.len(), 4);
    for v in [1, 2, 3, 4] {
        assert!(list.contains(&v));
    }
}

#[test]
fn unique_elist_contains_and_index_of() {
    let mut list: BasicEList<String> = BasicEList::new();
    list.add("alpha".into());
    list.add("beta".into());
    list.add("gamma".into());
    assert!(list.contains(&"beta".to_string()));
    assert!(!list.contains(&"delta".to_string()));
    assert_eq!(list.index_of(&"alpha".to_string()), Some(0));
    assert_eq!(list.index_of(&"gamma".to_string()), Some(2));
    assert_eq!(list.index_of(&"delta".to_string()), None);
}

#[test]
fn cpp_parity_common_core_unique_elist_constructor_from_collection() {
    let data = [1, 2, 2, 3, 1, 4];
    let mut list = BasicEList::default();
    for v in data {
        list.add_unique(v);
    }
    assert_eq!(list.len(), 4);
}

#[test]
fn cpp_parity_common_core_unique_elist_remove_and_clear() {
    let mut list = BasicEList::new();
    list.add(1);
    list.add(2);
    list.add(3);
    assert!(list.remove_value(&1));
    assert_eq!(list.len(), 2);
    assert!(!list.contains(&1));
    list.clear();
    assert_eq!(list.len(), 0);
    assert!(list.is_empty());
}

#[test]
fn unique_elist_move() {
    let mut list = BasicEList::new();
    list.add(10);
    list.add(20);
    list.add(30);
    list.add(40);
    let moved = list.move_element(0, 2).unwrap();
    assert_eq!(moved, 30);
    assert_eq!(*list.get(0).unwrap(), 30);
    assert_eq!(*list.get(1).unwrap(), 10);
    assert_eq!(*list.get(2).unwrap(), 20);
    assert_eq!(*list.get(3).unwrap(), 40);
}

// Own tests: laws and edge cases.

#[test]
fn unique_elist_add_keeps_elements_distinct() {
    let mut list: UniqueEList<i32> = UniqueEList::new();
    for v in [5, 1, 5, 2, 1, 2, 7] {
        list.add(v);
    }
    let items: Vec<i32> = list.iter().copied().collect();
    assert_eq!(items, [5, 1, 2, 7]);
}

#[test]
fn unique_elist_try_add_at_index_inserts_fresh_value() {
    let mut list: UniqueEList<i32> = UniqueEList::new();
    list.add(1);
    list.add(3);
    assert_eq!(list.try_add_at_index(1, 2), Ok(()));
    let items: Vec<i32> = list.iter().copied().collect();
    assert_eq!(items, [1, 2, 3]);
}

#[test]
fn unique_elist_try_set_fresh_and_out_of_range() {
    let mut list: UniqueEList<i32> = UniqueEList::new();
    list.add(1);
    list.add(2);
    assert_eq!(list.try_set(0, 9), Ok(Some(1)));
    assert_eq!(list.get(0), Some(&9));
    assert_eq!(list.try_set(5, 4), Err(UniqueDuplicateError::OutOfRange));
    assert_eq!(list.len(), 2);
}

#[test]
fn move_element_out_of_range_is_none() {
    let mut list = BasicEList::new();
    list.add(1);
    list.add(2);
    assert_eq!(list.move_element(0, 5), None);
    assert_eq!(list.move_element(5, 0), None);
    assert_eq!(list.as_slice(), [1, 2]);
}

#[test]
fn move_element_forward_and_hook_reports_move() {
    let events: Rc<RefCell<Vec<ListChange>>> = Rc::new(RefCell::new(Vec::new()));
    let mut list = BasicEList::from_vec(vec![1, 2, 3, 4]);
    list.set_change_hook(Some(Box::new(Recorder { events: events.clone() })));
    assert_eq!(list.move_element(3, 0), Some(1));
    assert_eq!(list.as_slice(), [2, 3, 4, 1]);
    assert_eq!(*events.borrow(), vec![ListChange::Move { from: 0, to: 3 }]);
}

#[test]
fn unique_elist_from_vec_keeps_first_occurrences() {
    let list = UniqueEList::from_vec(vec![3, 1, 3, 2, 1]);
    let items: Vec<i32> = list.iter().copied().collect();
    assert_eq!(items, [3, 1, 2]);
}

use artop::emf_compare::comparison::{Comparison, ConflictKind, MatchKind};
use artop::emf_compare::conflict_detector::{
    added_equivalent, detect_conflicts, reference_conflict, removed_equivalent, set_delta,
};
use artop::emf_compare::diff::{e_object_equals, Diff, DiffKind, DiffType, DifferenceSource, DifferenceState};
use artop::emf_compare::diff_engine::{detect_moves, do_diff, lookup_pair, MoveEntry};
use artop::emf_compare::diff_filter::{filter_diffs, MinimalDiffFilter};
use artop::emf_compare::equivalence_engine::compute_equivalences;
use artop::emf_compare::match_engine::{match_children, match_origin_children, match_trees, resolve_id, MatchSide};
use artop::emf_compare::merge_engine::{
    change_goal, merge_order, move_in_list, remap_value, topo_order, MergeDirection, MergeEngine, MergeReport,
};
use artop::emf_compare::requirement_engine::compute_requirements;
use artop::emf_compare::support::{
    contents, cross_references, object_list, single_object, value_equal, CompareValue, FeatureFacts, ObjectFacts,
};

type Value = CompareValue<String>;

fn feature(name: &str, reference: bool, many: bool, ordered: bool, containment: bool) -> FeatureFacts {
    FeatureFacts {
        name: name.to_string(),
        derived: false,
        transient: false,
        changeable: true,
        reference,
        many,
        ordered,
        containment,
    }
}

fn attribute(name: &str) -> FeatureFacts {
    feature(name, false, false, false, false)
}

fn object(key: usize, contents: Vec<usize>, features: Vec<FeatureFacts>, values: Vec<(&str, Value)>) -> ObjectFacts<String> {
    ObjectFacts {
        key,
        contents,
        proxy: false,
        features,
        values: values.into_iter().map(|(n, v)| (n.to_string(), v)).collect(),
    }
}

fn facts(key: usize, contents: Vec<usize>) -> ObjectFacts<String> {
    object(key, contents, vec![], vec![])
}

fn text(s: &str) -> Value {
    CompareValue::Data(s.to_string())
}

#[test]
fn comparison_add_match() {
    let mut comp: Comparison<Value, f64> = Comparison::new();
    let _idx = comp.add_match(None, None, MatchKind::Identical, 1.0);
    assert_eq!(comp.matches().len(), 1);
    let m = comp.match_at(0).expect("match 0");
    assert_eq!(m.kind(), MatchKind::Identical);
    assert_eq!(*m.similarity(), 1.0);
}

#[test]
fn comparison_differences_empty() {
    let comp: Comparison<Value, f64> = Comparison::new();
    assert_eq!(comp.differences().len(), 0);
}

#[test]
fn comparison_clear() {
    let mut comp: Comparison<Value, f64> = Comparison::new();
    comp.add_match(None, None, MatchKind::Identical, 1.0);
    comp.clear();
    assert_eq!(comp.matches().len(), 0);
}

#[test]
fn minimal_filter_rejects_empty_element_change() {
    let mut comp: Comparison<Value, f64> = Comparison::new();
    let empty = Diff::new(DiffKind::Change, "").with_type(DiffType::ElementChange);
    comp.add_diff(empty);
    let real = Diff::new(DiffKind::Change, "name").with_type(DiffType::AttributeChange);
    comp.add_diff(real);

    let filters = [MinimalDiffFilter];
    filter_diffs(&mut comp, &filters);

    assert_eq!(comp.differences().len(), 1);
    assert_eq!(comp.diff_at(0).unwrap().type_(), DiffType::AttributeChange);
}

#[test]
fn filter_keeps_element_change_with_a_value_and_all_without_filters() {
    let mut comp: Comparison<Value, f64> = Comparison::new();
    comp.add_diff(Diff::new(DiffKind::Change, "").with_type(DiffType::ElementChange).with_new_value(CompareValue::Object(4)));
    comp.add_diff(Diff::new(DiffKind::Change, ""));
    comp.add_diff(Diff::new(DiffKind::Add, ""));
    let none: [MinimalDiffFilter; 0] = [];
    filter_diffs(&mut comp, &none);
    assert_eq!(comp.differences().len(), 3);
    filter_diffs(&mut comp, &[MinimalDiffFilter]);
    assert_eq!(comp.differences().len(), 2);
    assert_eq!(comp.diff_at(0).unwrap().kind(), DiffKind::Change);
    assert_eq!(comp.diff_at(1).unwrap().kind(), DiffKind::Add);
}

#[test]
fn diff_defaults_and_builders() {
    let d: Diff<Value> = Diff::default();
    assert_eq!(d.kind(), DiffKind::Change);
    assert_eq!(d.type_(), DiffType::ElementChange);
    assert_eq!(d.attribute_name(), "");
    assert_eq!(d.source(), DifferenceSource::Right);
    assert_eq!(d.state(), DifferenceState::Pending);
    assert_eq!((d.old_index(), d.new_index()), (-1, -1));
    assert!(d.left().is_none() && d.right().is_none() && d.match_index().is_none());
    assert!(d.old_value().is_none() && d.new_value().is_none());

    let mut d: Diff<Value> = Diff::new(DiffKind::Move, "books")
        .with_type(DiffType::ReferenceChange)
        .with_left(3)
        .with_right(13)
        .with_source(DifferenceSource::Left)
        .with_old_index(2)
        .with_new_index(1)
        .with_old_value(CompareValue::Object(3))
        .with_new_value(CompareValue::Object(13));
    assert_eq!(d.kind(), DiffKind::Move);
    assert_eq!(d.attribute_name(), "books");
    assert_eq!((d.left(), d.right()), (Some(3), Some(13)));
    assert_eq!(d.source(), DifferenceSource::Left);
    assert_eq!((d.old_index(), d.new_index()), (2, 1));
    assert_eq!(d.new_value().and_then(single_object), Some(13));
    d.set_state(DifferenceState::Merged);
    d.set_attribute_name("items");
    d.set_match_index(Some(4));
    assert_eq!(d.state(), DifferenceState::Merged);
    assert_eq!(d.attribute_name(), "items");
    assert_eq!(d.match_index(), Some(4));
    assert!(e_object_equals(5, 5));
    assert!(!e_object_equals(5, 6));
}

#[test]
fn add_diff_to_match_records_the_index() {
    let mut comp: Comparison<Value, f64> = Comparison::new();
    comp.add_match(Some(1), Some(11), MatchKind::Different, 0.5);
    let i = comp.add_diff_to_match(Diff::new(DiffKind::Change, "name"), 0);
    assert_eq!(i, 0);
    assert_eq!(comp.diff_at(0).unwrap().match_index(), Some(0));
    assert_eq!(comp.match_at(0).unwrap().diff_indices(), &[0]);
    let j = comp.add_diff_to_match(Diff::new(DiffKind::Change, "size"), 7);
    assert_eq!(j, 1);
    assert_eq!(comp.diff_at(1).unwrap().match_index(), Some(7));
    assert_eq!(comp.match_at(0).unwrap().diff_indices(), &[0]);
    assert!(comp.match_at(1).is_none());
    assert!(comp.diff_at(2).is_none());
}

#[test]
fn moves_minimal_set_after_swap() {
    let left = vec![1, 2, 3];
    let right = vec![11, 13, 12];
    let ltr = vec![(1, 11), (2, 12), (3, 13)];
    let moves = detect_moves(&left, &right, &ltr);
    assert_eq!(moves, vec![MoveEntry { old_index: 2, new_index: 1, left: 3, right: 13 }]);
}

#[test]
fn moves_full_reversal() {
    let left = vec![1, 2, 3, 4];
    let right = vec![14, 13, 12, 11];
    let ltr = vec![(1, 11), (2, 12), (3, 13), (4, 14)];
    assert_eq!(detect_moves(&left, &right, &ltr).len(), 3);
}

#[test]
fn moves_need_equal_non_empty_lists() {
    let ltr = vec![(1, 11), (2, 12)];
    assert!(detect_moves(&vec![1, 2], &vec![12], &ltr).is_empty());
    assert!(detect_moves(&vec![], &vec![], &ltr).is_empty());
    assert!(detect_moves(&vec![1, 2], &vec![11, 12], &ltr).is_empty());
    // An element that keeps its relative order is anchored, an unmatched one
    // never moves.
    assert!(detect_moves(&vec![1, 5], &vec![6, 11], &ltr).is_empty());
    assert_eq!(
        detect_moves(&vec![5, 2, 1], &vec![11, 12, 6], &ltr),
        vec![MoveEntry { old_index: 2, new_index: 0, left: 1, right: 11 }]
    );
}

#[test]
fn moves_beyond_limit_report_changed_positions() {
    let n = 2049;
    let left: Vec<usize> = (0..n).collect();
    let mut right: Vec<usize> = (0..n).map(|k| k + 10_000).collect();
    right.swap(0, 1);
    let ltr: Vec<(usize, usize)> = (0..n).map(|k| (k, k + 10_000)).collect();
    let moves = detect_moves(&left, &right, &ltr);
    assert_eq!(
        moves,
        vec![
            MoveEntry { old_index: 0, new_index: 1, left: 0, right: 10_000 },
            MoveEntry { old_index: 1, new_index: 0, left: 1, right: 10_001 },
        ]
    );
}

#[test]
fn lookup_takes_the_last_pair() {
    let pairs = vec![(1, 10), (2, 20), (1, 30)];
    assert_eq!(lookup_pair(&pairs, 1), Some(30));
    assert_eq!(lookup_pair(&pairs, 2), Some(20));
    assert_eq!(lookup_pair(&pairs, 3), None);
}

#[test]
fn values_and_graph_facts() {
    let v: Value = CompareValue::List(vec![4, 5]);
    assert_eq!(object_list(&v), vec![4, 5]);
    assert_eq!(single_object(&v), None);
    assert_eq!(object_list(&CompareValue::<String>::Object(9)), vec![9]);
    assert!(object_list(&CompareValue::Data("x".to_string())).is_empty());
    let g = vec![facts(1, vec![2, 3]), facts(1, vec![9])];
    assert_eq!(contents(&g, 1), vec![2, 3]);
    assert!(contents(&g, 7).is_empty());
    assert!(value_equal(&text("a"), &text("a")));
    assert!(!value_equal(&text("a"), &text("b")));
    assert!(!value_equal(&text("a"), &CompareValue::Null));
    assert!(value_equal(&CompareValue::<String>::List(vec![1, 2]), &CompareValue::List(vec![1, 2])));
    let holder = object(
        4,
        vec![],
        vec![
            feature("single", true, false, false, false),
            feature("many", true, true, true, false),
            feature("owned", true, true, true, true),
            attribute("name"),
        ],
        vec![
            ("single", CompareValue::Object(7)),
            ("many", CompareValue::List(vec![8, 9])),
            ("owned", CompareValue::List(vec![10])),
            ("name", text("x")),
        ],
    );
    assert_eq!(cross_references(&vec![holder], 4), vec![7, 8, 9]);
}

#[test]
fn requirements_follow_containment_and_references() {
    let mut comp: Comparison<Value, f64> = Comparison::new();
    // Right side: 5 contains 6; left side: 7 contains 8.
    comp.add_match(None, Some(5), MatchKind::AbsentLeft, 0.0);
    comp.add_match(None, Some(6), MatchKind::AbsentLeft, 0.0);
    comp.add_match(Some(7), None, MatchKind::AbsentRight, 0.0);
    comp.add_match(Some(8), None, MatchKind::AbsentRight, 0.0);
    let add = |k: usize| Diff::new(DiffKind::Add, "").with_type(DiffType::ElementChange).with_right(k);
    let del = |k: usize| Diff::new(DiffKind::Delete, "").with_type(DiffType::ElementChange).with_left(k);
    comp.add_diff(add(5)); // 0
    comp.add_diff(add(6)); // 1: requires 0
    comp.add_diff(del(7)); // 2: requires 3
    comp.add_diff(del(8)); // 3
    comp.add_diff(
        Diff::new(DiffKind::Change, "ref").with_type(DiffType::ReferenceChange).with_new_value(CompareValue::Object(6)),
    ); // 4: requires 1
    comp.add_diff(Diff::new(DiffKind::Move, "items").with_type(DiffType::ReferenceChange).with_right(5)); // 5: requires 0
    comp.add_diff(Diff::new(DiffKind::Move, "items").with_type(DiffType::ReferenceChange).with_right(5)); // 6: requires 0
    comp.add_diff(
        Diff::new(DiffKind::Change, "name").with_type(DiffType::AttributeChange).with_new_value(CompareValue::Object(6)),
    ); // 7: attribute change, no requirement
    let graph = vec![facts(5, vec![6]), facts(7, vec![8])];
    comp.dependencies_mut().push(artop::emf_compare::comparison::Dependency::new(9, 9));
    compute_requirements(&mut comp, &graph);
    let deps: Vec<(usize, usize)> = comp.dependencies().iter().map(|d| (d.source(), d.target())).collect();
    assert_eq!(deps, vec![(1, 0), (2, 3), (4, 1), (5, 0), (6, 0)]);
}

#[test]
fn requirements_skip_self_and_repeated_edges() {
    let mut comp: Comparison<Value, f64> = Comparison::new();
    comp.add_diff(Diff::new(DiffKind::Add, "").with_type(DiffType::ElementChange).with_right(5)); // 0
    // A move of the added object itself is its own addition when it is the addition.
    comp.add_diff(Diff::new(DiffKind::Move, "").with_type(DiffType::ElementChange).with_right(5)); // 1
    let graph: Vec<ObjectFacts<String>> = vec![];
    compute_requirements(&mut comp, &graph);
    let deps: Vec<(usize, usize)> = comp.dependencies().iter().map(|d| (d.source(), d.target())).collect();
    assert_eq!(deps, vec![(1, 0)]);
}

#[test]
fn equivalences_link_referencing_matches() {
    let mut comp: Comparison<Value, f64> = Comparison::new();
    comp.add_match(Some(1), Some(101), MatchKind::Identical, 1.0);
    comp.add_match(Some(2), Some(102), MatchKind::Identical, 1.0);
    comp.add_match(None, Some(103), MatchKind::AbsentLeft, 0.0);
    let refs = feature("refs", true, true, false, false);
    let one = feature("ref", true, false, false, false);
    let graph = vec![
        object(1, vec![], vec![refs], vec![("refs", CompareValue::List(vec![2, 1, 99]))]),
        object(2, vec![], vec![one.clone()], vec![("ref", CompareValue::Object(2))]),
        object(103, vec![], vec![one], vec![("ref", CompareValue::Object(101))]),
    ];
    compute_equivalences(&mut comp, &graph);
    let eqs: Vec<Vec<usize>> = comp.equivalences().iter().map(|e| e.matches().to_vec()).collect();
    assert_eq!(eqs, vec![vec![0, 1], vec![2, 0]]);
}

#[test]
fn set_delta_resolves_through_origin_pairs() {
    let side = vec![21, 22, 30];
    let origin = vec![1, 2, 3];
    let s2o = vec![(21, 1), (22, 2)];
    let (added, removed) = set_delta(&side, &origin, &s2o);
    assert_eq!(added, vec![30]);
    assert_eq!(removed, vec![3]);
}

#[test]
fn added_and_removed_equivalence() {
    assert!(added_equivalent(&vec![5], &vec![15], &vec![(5, 15)]));
    assert!(!added_equivalent(&vec![5], &vec![16], &vec![(5, 15)]));
    assert!(!added_equivalent(&vec![5], &vec![15, 16], &vec![(5, 15)]));
    assert!(!added_equivalent(&vec![6], &vec![15], &vec![(5, 15)]));
    assert!(removed_equivalent(&vec![1, 2], &vec![2, 1]));
    assert!(!removed_equivalent(&vec![1, 2], &vec![2, 3]));
    assert!(!removed_equivalent(&vec![1], &vec![]));
}

#[test]
fn reference_conflicts_real_and_pseudo() {
    let origin = vec![1];
    let lto = vec![(11, 1)];
    let rto = vec![(21, 1)];
    let ltr = vec![(11, 21), (12, 22)];
    // Both sides add the matched object 12 / 22: pseudo conflict.
    assert_eq!(reference_conflict(&origin, &vec![11, 12], &vec![21, 22], &lto, &rto, &ltr), Some(ConflictKind::Pseudo));
    // Different additions: real conflict.
    assert_eq!(reference_conflict(&origin, &vec![11, 12], &vec![21, 23], &lto, &rto, &ltr), Some(ConflictKind::Real));
    // Only the left side changed: no conflict.
    assert_eq!(reference_conflict(&origin, &vec![11, 12], &vec![21], &lto, &rto, &ltr), None);
}

fn ordered_after_dependencies(order: &[usize], deps: &[(usize, usize)]) -> bool {
    deps.iter().all(|&(s, t)| {
        let ps = order.iter().position(|&x| x == s).unwrap();
        let pt = order.iter().position(|&x| x == t).unwrap();
        ps > pt
    })
}

#[test]
fn merge_order_is_breadth_first_after_dependencies() {
    // 0 after 2, 1 after 0, 3 free.
    let deps = vec![(0, 2), (1, 0)];
    let order = merge_order(4, &deps);
    assert_eq!(order, vec![2, 3, 0, 1]);
    assert!(ordered_after_dependencies(&order, &deps));
    // Out-of-range and self dependencies are ignored.
    assert_eq!(merge_order(3, &vec![(0, 0), (1, 7), (9, 1)]), vec![0, 1, 2]);
    assert!(merge_order(0, &vec![]).is_empty());
}

#[test]
fn merge_order_appends_cycles_in_index_order() {
    // 1 and 2 wait on each other; 3 waits on 2; 0 is free.
    let order = merge_order(4, &vec![(1, 2), (2, 1), (3, 2)]);
    assert_eq!(order, vec![0, 1, 2, 3]);
    let order = merge_order(5, &vec![(0, 4), (2, 3), (3, 2)]);
    assert_eq!(order, vec![1, 4, 0, 2, 3]);
}

#[test]
fn merge_plan_orders_additions_before_contents() {
    let mut comp: Comparison<Value, f64> = Comparison::new();
    comp.add_match(None, Some(5), MatchKind::AbsentLeft, 0.0);
    let add = |k: usize| Diff::new(DiffKind::Add, "").with_type(DiffType::ElementChange).with_right(k);
    comp.add_diff(add(6)); // 0: contained in 5, requires 1
    comp.add_diff(add(5)); // 1
    let graph = vec![facts(5, vec![6])];
    let plan = MergeEngine::merge_plan(&mut comp, &graph);
    assert_eq!(plan, vec![1, 0]);
    assert_eq!(topo_order(&comp), vec![1, 0]);
    assert_eq!(comp.dependencies().len(), 1);
}

#[test]
fn merge_pairs_and_outcomes() {
    let mut comp: Comparison<Value, f64> = Comparison::new();
    comp.add_match(Some(1), Some(11), MatchKind::Identical, 1.0);
    comp.add_match(None, Some(12), MatchKind::AbsentLeft, 0.0);
    comp.add_match(Some(3), Some(13), MatchKind::Different, 0.5);
    assert_eq!(MergeEngine::merge_pairs(&comp, MergeDirection::RightToLeft), vec![(11, 1), (13, 3)]);
    assert_eq!(MergeEngine::merge_pairs(&comp, MergeDirection::LeftToRight), vec![(1, 11), (3, 13)]);

    comp.add_diff(Diff::new(DiffKind::Change, "name"));
    comp.add_diff(Diff::new(DiffKind::Change, "size"));
    let mut report = MergeReport::default();
    assert!(MergeEngine::is_pending(&comp, 0));
    MergeEngine::record_outcome(&mut comp, 0, true, &mut report);
    MergeEngine::record_outcome(&mut comp, 1, false, &mut report);
    assert_eq!((report.applied, report.skipped), (1, 1));
    assert_eq!(comp.diff_at(0).unwrap().state(), DifferenceState::Merged);
    assert_eq!(comp.diff_at(1).unwrap().state(), DifferenceState::Pending);
    assert!(!MergeEngine::is_pending(&comp, 0));
    assert!(MergeEngine::is_pending(&comp, 1));
    assert!(!MergeEngine::is_pending(&comp, 2));
}

fn book(key: usize, title: &str, pages: &str) -> ObjectFacts<String> {
    object(key, vec![], vec![attribute("title"), attribute("pages")], vec![("title", text(title)), ("pages", text(pages))])
}

fn kinds(comp: &Comparison<Value, f64>) -> Vec<DiffKind> {
    comp.differences().iter().map(|d| d.kind()).collect()
}

#[test]
fn diff_engine_no_diff_on_identical() {
    let mut comp: Comparison<Value, f64> = Comparison::new();
    comp.add_match(None, None, MatchKind::Identical, 1.0);
    do_diff(&mut comp, &Vec::<ObjectFacts<String>>::new());
    assert_eq!(comp.differences().len(), 0);
}

#[test]
fn diff_engine_produces_diff_on_different() {
    let graph = vec![book(1, "T1", "10"), book(11, "T2", "20")];
    let mut comp: Comparison<Value, f64> = Comparison::new();
    comp.add_match(Some(1), Some(11), MatchKind::Different, 0.0);
    do_diff(&mut comp, &graph);
    assert!(comp.differences().len() >= 1);
    let d = comp.diff_at(0).expect("first diff");
    assert_eq!(d.kind(), DiffKind::Change);
    assert_eq!(d.type_(), DiffType::AttributeChange);
    assert_eq!(d.attribute_name(), "title");
    assert!(matches!(d.old_value(), Some(CompareValue::Data(t)) if t == "T1"));
    assert!(matches!(d.new_value(), Some(CompareValue::Data(t)) if t == "T2"));
    assert_eq!(comp.differences().len(), 2);
    assert_eq!(comp.diff_at(1).unwrap().attribute_name(), "pages");
    assert_eq!(comp.match_at(0).unwrap().diff_indices(), &[0, 1]);
    assert_eq!(d.match_index(), Some(0));
}

#[test]
fn diff_engine_adds_deletes_and_degenerate_changes() {
    let graph = vec![book(1, "T", "1"), book(11, "T", "1")];
    let mut comp: Comparison<Value, f64> = Comparison::new();
    comp.add_match(None, Some(12), MatchKind::AbsentLeft, 0.0);
    comp.add_match(Some(2), None, MatchKind::AbsentRight, 0.0);
    comp.add_match(Some(1), Some(11), MatchKind::Different, 0.5);
    do_diff(&mut comp, &graph);
    assert_eq!(kinds(&comp), vec![DiffKind::Add, DiffKind::Delete, DiffKind::Change]);
    let add = comp.diff_at(0).unwrap();
    assert_eq!((add.type_(), add.right(), add.source()), (DiffType::ElementChange, Some(12), DifferenceSource::Right));
    assert!(matches!(add.new_value(), Some(CompareValue::Object(12))));
    let del = comp.diff_at(1).unwrap();
    assert_eq!((del.type_(), del.left(), del.source()), (DiffType::ElementChange, Some(2), DifferenceSource::Left));
    let whole = comp.diff_at(2).unwrap();
    assert_eq!((whole.type_(), whole.attribute_name()), (DiffType::ElementChange, ""));
    assert!(matches!(whole.old_value(), Some(CompareValue::Object(1))));
}

#[test]
fn diff_engine_single_references_follow_matches() {
    let link = feature("link", true, false, false, false);
    let graph = vec![
        object(1, vec![], vec![link.clone()], vec![("link", CompareValue::Object(5))]),
        object(11, vec![], vec![link.clone()], vec![("link", CompareValue::Object(15))]),
        object(2, vec![], vec![link.clone()], vec![("link", CompareValue::Object(5))]),
        object(12, vec![], vec![link], vec![("link", CompareValue::Object(16))]),
    ];
    let mut comp: Comparison<Value, f64> = Comparison::new();
    comp.add_match(Some(5), Some(15), MatchKind::Identical, 1.0);
    comp.add_match(Some(1), Some(11), MatchKind::Different, 0.5);
    comp.add_match(Some(2), Some(12), MatchKind::Different, 0.5);
    do_diff(&mut comp, &graph);
    // 1 -> 5 and 11 -> 15 are matched targets: only the whole-object change.
    // 2 -> 5 and 12 -> 16 are not: a reference change.
    let got: Vec<(DiffType, Option<usize>)> = comp.differences().iter().map(|d| (d.type_(), d.match_index())).collect();
    assert_eq!(got, vec![(DiffType::ElementChange, Some(1)), (DiffType::ReferenceChange, Some(2))]);
}

fn library_comp(left_books: Vec<usize>, right_books: Vec<usize>) -> Comparison<Value, f64> {
    let books = feature("books", true, true, true, true);
    let graph = vec![
        object(1, left_books.clone(), vec![books.clone()], vec![("books", CompareValue::List(left_books.clone()))]),
        object(100, right_books.clone(), vec![books], vec![("books", CompareValue::List(right_books))]),
    ];
    let mut comp: Comparison<Value, f64> = Comparison::new();
    comp.add_match(Some(1), Some(100), MatchKind::Identical, 1.0);
    for &b in &left_books {
        comp.add_match(Some(b), Some(b + 100), MatchKind::Identical, 1.0);
    }
    do_diff(&mut comp, &graph);
    comp
}

#[test]
fn diff_engine_lcs_move_minimal_move_set() {
    let comp = library_comp(vec![2, 3, 4], vec![102, 104, 103]);
    assert_eq!(kinds(&comp), vec![DiffKind::Move]);
    let d = comp.diff_at(0).unwrap();
    assert_eq!((d.left(), d.right(), d.old_index(), d.new_index()), (Some(4), Some(104), 2, 1));
    assert_eq!(d.attribute_name(), "books");
}

#[test]
fn diff_engine_lcs_move_full_reversal() {
    let comp = library_comp(vec![2, 3, 4, 5], vec![105, 104, 103, 102]);
    assert_eq!(kinds(&comp), vec![DiffKind::Move, DiffKind::Move, DiffKind::Move]);
}

fn three_way(l: Value, r: Value, o: Value, many: bool) -> Comparison<Value, f64> {
    let f = if many { feature("items", true, true, false, false) } else { attribute("items") };
    let graph = vec![
        object(1, vec![], vec![f.clone()], vec![("items", l)]),
        object(11, vec![], vec![f.clone()], vec![("items", r)]),
        object(21, vec![], vec![f], vec![("items", o)]),
    ];
    let mut comp: Comparison<Value, f64> = Comparison::new();
    comp.set_three_way(true);
    comp.add_match(Some(1), Some(11), MatchKind::Different, 0.5);
    comp.matches_mut()[0].set_origin(Some(21));
    comp.add_match(Some(5), Some(15), MatchKind::Identical, 1.0);
    comp.matches_mut()[1].set_origin(Some(25));
    comp.add_diff_to_match(Diff::new(DiffKind::Change, "items").with_type(DiffType::AttributeChange), 0);
    comp.add_diff_to_match(Diff::new(DiffKind::Change, "other").with_type(DiffType::AttributeChange), 0);
    detect_conflicts(&mut comp, &graph);
    comp
}

#[test]
fn conflicts_real_pseudo_and_none() {
    let real = three_way(text("b"), text("c"), text("a"), false);
    assert_eq!(real.conflicts().len(), 1);
    assert_eq!(real.conflicts()[0].kind(), ConflictKind::Real);
    assert_eq!(real.conflicts()[0].diff_indices(), &[0]);
    let pseudo = three_way(text("b"), text("b"), text("a"), false);
    assert_eq!(pseudo.conflicts()[0].kind(), ConflictKind::Pseudo);
    let one_side = three_way(text("b"), text("a"), text("a"), false);
    assert!(one_side.conflicts().is_empty());
}

#[test]
fn conflicts_on_many_valued_references() {
    // Both sides add an unmatched object: real.
    let real = three_way(CompareValue::List(vec![30]), CompareValue::List(vec![31]), CompareValue::List(vec![]), true);
    assert_eq!(real.conflicts().len(), 1);
    assert_eq!(real.conflicts()[0].kind(), ConflictKind::Real);
    // Both sides remove the same origin object: pseudo.
    let pseudo = three_way(CompareValue::List(vec![]), CompareValue::List(vec![]), CompareValue::List(vec![40]), true);
    assert_eq!(pseudo.conflicts()[0].kind(), ConflictKind::Pseudo);
}

#[test]
fn two_way_comparisons_have_no_conflicts() {
    let graph = vec![book(1, "a", "1"), book(11, "b", "1"), book(21, "c", "1")];
    let mut comp: Comparison<Value, f64> = Comparison::new();
    comp.add_match(Some(1), Some(11), MatchKind::Different, 0.5);
    comp.matches_mut()[0].set_origin(Some(21));
    detect_conflicts(&mut comp, &graph);
    assert!(comp.conflicts().is_empty());
}

#[test]
fn change_goal_follows_direction_and_source() {
    let d: Diff<Value> = Diff::new(DiffKind::Change, "name").with_old_value(text("old")).with_new_value(text("new"));
    // Produced by the right side: right-to-left takes the new value.
    assert!(matches!(change_goal(&d, MergeDirection::RightToLeft), Some(CompareValue::Data(t)) if t == "new"));
    assert!(matches!(change_goal(&d, MergeDirection::LeftToRight), Some(CompareValue::Data(t)) if t == "old"));
    let d = d.with_source(DifferenceSource::Left);
    assert!(matches!(change_goal(&d, MergeDirection::LeftToRight), Some(CompareValue::Data(t)) if t == "new"));
    let unnamed: Diff<Value> = Diff::new(DiffKind::Change, "").with_new_value(text("x"));
    assert!(change_goal(&unnamed, MergeDirection::RightToLeft).is_none());
}

#[test]
fn remap_value_uses_goal_side_counterparts() {
    let map = vec![(11, 1), (12, 2)];
    assert!(matches!(remap_value(&CompareValue::<String>::Object(11), &map), CompareValue::Object(1)));
    assert!(matches!(remap_value(&CompareValue::<String>::Object(13), &map), CompareValue::Object(13)));
    match remap_value(&CompareValue::<String>::List(vec![12, 13, 11]), &map) {
        CompareValue::List(v) => assert_eq!(v, vec![2, 13, 1]),
        _ => panic!("expected a list"),
    }
    assert!(matches!(remap_value(&text("x"), &map), CompareValue::Data(t) if t == "x"));
}

#[test]
fn move_in_list_reorders_and_clamps() {
    let list = vec![5, 6, 7, 8];
    assert_eq!(move_in_list(&list, 8, 1), Some(vec![5, 8, 6, 7]));
    assert_eq!(move_in_list(&list, 5, 99), Some(vec![6, 7, 8, 5]));
    assert_eq!(move_in_list(&list, 7, -3), Some(vec![7, 5, 6, 8]));
    assert_eq!(move_in_list(&list, 6, 1), None);
    assert_eq!(move_in_list(&list, 9, 0), None);
}

fn names(v: &[&str]) -> Vec<String> {
    v.iter().map(|s| s.to_string()).collect()
}

fn ids(v: &[Option<&str>]) -> Vec<Option<String>> {
    v.iter().map(|o| o.map(|s| s.to_string())).collect()
}

#[test]
fn match_children_by_id_then_bucket_preference() {
    let pairs = match_children(
        &names(&["A", "A", "B"]),
        &names(&["B", "A", "A"]),
        &ids(&[Some("1"), None, None]),
        &ids(&[None, Some("1"), None]),
        &vec![vec![], vec![2, 1, 0], vec![0]],
    );
    assert_eq!(pairs, vec![(0, 1), (1, 2), (2, 0)]);
}

#[test]
fn match_children_last_identified_child_wins_and_taken_is_unmatched() {
    let pairs = match_children(
        &names(&["A", "A"]),
        &names(&["A", "A"]),
        &ids(&[Some("x"), Some("x")]),
        &ids(&[Some("x"), Some("x")]),
        &vec![vec![], vec![]],
    );
    assert_eq!(pairs, vec![(0, 1)]);
}

#[test]
fn match_children_skips_other_classes_and_identified_children() {
    let pairs = match_children(
        &names(&["A"]),
        &names(&["B", "A", "A"]),
        &ids(&[None]),
        &ids(&[None, Some("k"), None]),
        &vec![vec![0, 1, 7, 2]],
    );
    assert_eq!(pairs, vec![(0, 2)]);
}

#[test]
fn match_origin_children_greedy_by_class() {
    let pairs = match_origin_children(
        &names(&["A", "A", "C"]),
        &names(&["A", "C"]),
        &vec![vec![0], vec![0], vec![1, 0]],
    );
    assert_eq!(pairs, vec![(0, 0), (2, 1)]);
}

fn side(classes: &[&str], children: Vec<Vec<usize>>) -> MatchSide {
    MatchSide { classes: names(classes), ids: vec![None; classes.len()], children }
}

#[test]
fn match_trees_descends_into_matched_children() {
    let left = side(&["R", "A", "B", "C", "E"], vec![vec![1, 2, 4], vec![], vec![3], vec![], vec![]]);
    let right = side(&["R", "B", "A", "D", "C"], vec![vec![1, 2, 3], vec![4], vec![], vec![], vec![]]);
    let prefs = vec![vec![0], vec![2, 1], vec![1], vec![4], vec![]];
    let entries = match_trees(&left, &right, &prefs, Some(0), Some(0));
    assert_eq!(
        entries,
        vec![
            (Some(0), Some(0)),
            (Some(1), Some(2)),
            (Some(2), Some(1)),
            (Some(3), Some(4)),
            (Some(4), None),
            (None, Some(3)),
        ]
    );
}

#[test]
fn match_trees_single_sided_roots() {
    let left = side(&["R"], vec![vec![]]);
    let right = side(&["R"], vec![vec![]]);
    let prefs = vec![vec![]];
    assert_eq!(match_trees(&left, &right, &prefs, Some(0), None), vec![(Some(0), None)]);
    assert_eq!(match_trees(&left, &right, &prefs, None, Some(0)), vec![(None, Some(0))]);
    assert!(match_trees(&left, &right, &prefs, None, None).is_empty());
}

#[test]
fn resolve_id_priority() {
    assert_eq!(resolve_id(Some("m"), Some("p"), true, "a"), ("m".to_string(), true));
    assert_eq!(resolve_id(Some(""), Some("p"), true, "a"), ("".to_string(), false));
    assert_eq!(resolve_id(None, Some("p"), true, "a"), ("p".to_string(), true));
    assert_eq!(resolve_id(None, Some(""), true, "a"), ("a".to_string(), true));
    assert_eq!(resolve_id(None, None, false, "a"), ("".to_string(), false));
}

use artop::autosar448_model::reflect::{
    all_features, all_super_ids, class_id, count_cycles, e_get, feature_id, is_super_type_of,
    RObject,
};
use artop::autosar448_model::registry::{ClassRegistry, EClassData};

fn class(name: &str, sups: Vec<u32>, own: Vec<u16>) -> EClassData {
    EClassData { name: name.to_string(), abstract_: false, sups, own }
}

/// ARObject <- Referrable <- Identifiable <- Swc, and Other <- Swc, Other
/// also inheriting ARObject (a diamond).
fn sample() -> ClassRegistry {
    ClassRegistry {
        classes: vec![
            class("ARObject", vec![], vec![]),
            class("Referrable", vec![0], vec![0]),
            class("Identifiable", vec![1], vec![]),
            class("Other", vec![0], vec![0, 2]),
            class("Swc", vec![2, 3], vec![1]),
        ],
        feature_names: vec!["shortName".into(), "category".into(), "extra".into()],
    }
}

#[test]
fn super_ids_walk_depth_first_once_each() {
    let reg = sample();
    let mut anc = Vec::new();
    all_super_ids(&reg, 4, &mut anc);
    assert_eq!(anc, vec![2, 1, 0, 3]);
    let mut none = Vec::new();
    all_super_ids(&reg, 0, &mut none);
    assert!(none.is_empty());
}

#[test]
fn super_ids_do_not_walk_past_known_ids() {
    let reg = sample();
    let mut anc = vec![1];
    all_super_ids(&reg, 4, &mut anc);
    assert_eq!(anc, vec![1, 2, 3, 0]);
}

#[test]
fn supertype_relation_holds() {
    let reg = sample();
    assert!(is_super_type_of(&reg, 1, 4));
    assert!(is_super_type_of(&reg, 0, 4));
    assert!(is_super_type_of(&reg, 4, 4));
    assert!(!is_super_type_of(&reg, 4, 1));
    assert!(!is_super_type_of(&reg, 3, 2));
}

#[test]
fn all_features_are_ancestor_first_and_unique() {
    let reg = sample();
    assert_eq!(all_features(&reg, 4), vec![(1, 0), (3, 2), (4, 1)]);
    assert_eq!(all_features(&reg, 0), vec![]);
}

#[test]
fn cycles_are_counted() {
    let reg = sample();
    assert_eq!(count_cycles(&reg), 0);
    let cyclic = ClassRegistry {
        classes: vec![class("A", vec![1], vec![]), class("B", vec![0], vec![]), class("C", vec![0], vec![])],
        feature_names: vec![],
    };
    assert_eq!(count_cycles(&cyclic), 2);
}

#[test]
fn names_map_to_ids() {
    let reg = sample();
    assert_eq!(feature_id(&reg, "category"), Some(1));
    assert_eq!(feature_id(&reg, "nope"), None);
    assert_eq!(class_id(&reg, "Swc"), Some(4));
    assert_eq!(class_id(&reg, "Missing"), None);
}

#[test]
fn eget_reads_ancestor_feature() {
    let reg = sample();
    let swc = class_id(&reg, "Swc").unwrap();
    let mut obj: RObject<String> = RObject::new(swc);
    assert!(obj.set_by_name(&reg, "shortName", "MySwc".to_string()).is_some());
    assert_eq!(e_get(&reg, swc, "shortName", &obj), Some("MySwc".to_string()));
    assert!(obj.set_by_name(&reg, "shortName", "Renamed".to_string()).is_some());
    assert_eq!(obj.own.len(), 1);
    assert_eq!(e_get(&reg, swc, "shortName", &obj), Some("Renamed".to_string()));
    assert_eq!(e_get(&reg, swc, "category", &obj), None);
}

#[test]
fn reject_features_out_of_scope() {
    let reg = sample();
    let mut obj: RObject<u8> = RObject::new(4);
    assert!(obj.set_by_name(&reg, "__no_such_feature__", 0).is_none());
    let mut id_obj: RObject<u8> = RObject::new(2);
    assert!(id_obj.set_by_name(&reg, "extra", 1).is_none());
    assert!(id_obj.own.is_empty());
    assert_eq!(e_get(&reg, 2, "extra", &obj), None);
}

use artop::artop_validation::autosar_constraints::{
    category_required_eval, ecuc_container_value_has_definition_eval, ecuc_enumeration_param_def_has_literals_eval,
    ecuc_parameter_def_symbolic_name_non_empty_eval, ecuc_reference_def_has_destination_eval,
    ecuc_textual_param_value_non_empty_eval, feature, read_str, no_unresolved_proxy_eval, short_name_non_empty_eval,
    short_name_unique_in_parent_eval, subtree_uuids_valid, uuid_non_empty_eval, validate_uuid_uniqueness,
    ConstrainedObject, FeatureValue, ModelNode, register_autosar_constraints, register_ecuc_constraints,
    ConstraintCheck, ConstraintMode,
};
use artop::emf_common::diagnostic::Severity;

fn node(uuid: Option<&str>, children: Vec<ModelNode>) -> ModelNode {
    ModelNode { uuid: uuid.map(|s| s.to_string()), children }
}

#[test]
fn uuid_sweep_reports_empty_and_repeated_in_preorder() {
    let root = node(
        Some("a"),
        vec![
            node(Some("b"), vec![node(Some("b"), vec![])]),
            node(Some(""), vec![]),
            node(Some("a"), vec![]),
            node(None, vec![]),
        ],
    );
    let ds = validate_uuid_uniqueness(&root);
    let msgs: Vec<&str> = ds.iter().map(|d| d.message()).collect();
    assert_eq!(
        msgs,
        vec![
            "AUTOSAR Identifiable.uuid must be globally unique: duplicate uuid 'b'",
            "AUTOSAR Identifiable.uuid must not be empty",
            "AUTOSAR Identifiable.uuid must be globally unique: duplicate uuid 'a'",
        ]
    );
    for d in &ds {
        assert_eq!(d.severity(), Severity::Error);
        assert_eq!(d.source(), "AutosarUuidGloballyUnique");
        assert_eq!(d.code(), 0);
    }
}

#[test]
fn uuid_sweep_unique_tree_is_clean() {
    let root = node(Some("r"), vec![node(Some("x"), vec![node(None, vec![])]), node(Some("y"), vec![])]);
    assert!(validate_uuid_uniqueness(&root).is_empty());
}

#[test]
fn uuid_sweep_every_empty_uuid_reported() {
    let root = node(Some(""), vec![node(Some(""), vec![])]);
    assert_eq!(validate_uuid_uniqueness(&root).len(), 2);
}

fn text(v: &str) -> FeatureValue {
    FeatureValue::Text(v.to_string())
}

fn object(class: &str, features: Vec<(&str, FeatureValue)>) -> ConstrainedObject {
    ConstrainedObject {
        class_name: class.to_string(),
        features: features.into_iter().map(|(n, v)| (n.to_string(), v)).collect(),
        cross_reference_proxies: vec![],
    }
}

#[test]
fn globally_unique_agrees_with_sweep() {
    let clean = node(Some("r"), vec![node(Some("x"), vec![node(None, vec![])]), node(Some("y"), vec![])]);
    assert!(subtree_uuids_valid(&clean));
    let repeated = node(Some("r"), vec![node(Some("x"), vec![]), node(Some("x"), vec![])]);
    assert!(!subtree_uuids_valid(&repeated));
    let empty = node(Some("r"), vec![node(Some(""), vec![])]);
    assert!(!subtree_uuids_valid(&empty));
    assert!(subtree_uuids_valid(&node(None, vec![node(None, vec![])])));
}

#[test]
fn feature_lookup_takes_first_entry_by_name() {
    let o = object("ARPackage", vec![("shortName", text("pkg")), ("uuid", FeatureValue::Int(3)), ("shortName", text("other"))]);
    assert_eq!(read_str(&o, "shortName").map(|s| s.as_str()), Some("pkg"));
    assert!(read_str(&o, "uuid").is_none());
    assert!(matches!(feature(&o, "uuid"), Some(FeatureValue::Int(3))));
    assert!(feature(&o, "category").is_none());
}

#[test]
fn short_name_and_uuid_non_empty() {
    assert!(short_name_non_empty_eval(&object("A", vec![("shortName", text("x"))])));
    assert!(!short_name_non_empty_eval(&object("A", vec![("shortName", text(""))])));
    assert!(short_name_non_empty_eval(&object("A", vec![])));
    assert!(short_name_non_empty_eval(&object("A", vec![("shortName", FeatureValue::Null)])));
    assert!(uuid_non_empty_eval(&object("A", vec![("uuid", text("u-1"))])));
    assert!(!uuid_non_empty_eval(&object("A", vec![("uuid", text(""))])));
    assert!(uuid_non_empty_eval(&object("A", vec![])));
}

#[test]
fn category_must_not_be_empty_when_set() {
    assert!(category_required_eval(&object("A", vec![("category", text("STANDARD"))])));
    assert!(!category_required_eval(&object("A", vec![("category", text(""))])));
    assert!(category_required_eval(&object("A", vec![("category", FeatureValue::Bool(true))])));
    assert!(category_required_eval(&object("A", vec![])));
}

#[test]
fn proxies_among_cross_references_fail() {
    let mut o = object("A", vec![]);
    assert!(no_unresolved_proxy_eval(&o));
    o.cross_reference_proxies = vec![false, false];
    assert!(no_unresolved_proxy_eval(&o));
    o.cross_reference_proxies = vec![false, true];
    assert!(!no_unresolved_proxy_eval(&o));
}

#[test]
fn short_name_unique_among_same_class_siblings() {
    let sibs = vec![
        object("ApplicationSwComponentType", vec![("shortName", text("Comp"))]),
        object("SenderReceiverInterface", vec![("shortName", text("Comp"))]),
        object("ApplicationSwComponentType", vec![("shortName", text("Other"))]),
        object("ApplicationSwComponentType", vec![("shortName", text("Comp"))]),
        object("ApplicationSwComponentType", vec![("shortName", text(""))]),
        object("ApplicationSwComponentType", vec![("shortName", text(""))]),
    ];
    assert!(!short_name_unique_in_parent_eval(Some(&sibs), 0));
    assert!(short_name_unique_in_parent_eval(Some(&sibs), 1));
    assert!(short_name_unique_in_parent_eval(Some(&sibs), 2));
    assert!(!short_name_unique_in_parent_eval(Some(&sibs), 3));
    assert!(short_name_unique_in_parent_eval(Some(&sibs), 4));
    assert!(short_name_unique_in_parent_eval(None, 0));
}

#[test]
fn ecuc_object_constraints() {
    assert!(ecuc_container_value_has_definition_eval(&object("EcucContainerValue", vec![("definition", FeatureValue::Object)])));
    assert!(!ecuc_container_value_has_definition_eval(&object("EcucContainerValue", vec![("definition", FeatureValue::Null)])));
    assert!(!ecuc_container_value_has_definition_eval(&object("EcucContainerValue", vec![])));
    assert!(ecuc_reference_def_has_destination_eval(&object("EcucReferenceDef", vec![("destination", FeatureValue::Object)])));
    assert!(!ecuc_reference_def_has_destination_eval(&object("EcucReferenceDef", vec![])));
    assert!(ecuc_enumeration_param_def_has_literals_eval(&object("EcucEnumerationParamDef", vec![("literals", FeatureValue::List(2))])));
    assert!(!ecuc_enumeration_param_def_has_literals_eval(&object("EcucEnumerationParamDef", vec![("literals", FeatureValue::List(0))])));
    assert!(!ecuc_enumeration_param_def_has_literals_eval(&object("EcucEnumerationParamDef", vec![])));
    assert!(ecuc_textual_param_value_non_empty_eval(&object("EcucTextualParamValue", vec![("value", text("v"))])));
    assert!(!ecuc_textual_param_value_non_empty_eval(&object("EcucTextualParamValue", vec![("value", text(""))])));
    assert!(ecuc_parameter_def_symbolic_name_non_empty_eval(&object("EcucParameterDef", vec![])));
    assert!(!ecuc_parameter_def_symbolic_name_non_empty_eval(&object("EcucParameterDef", vec![("symbolicName", text(""))])));
}

#[test]
fn constraint_tables_list_the_registered_constraints() {
    let a = register_autosar_constraints();
    assert_eq!(a.len(), 9);
    assert_eq!(a[0].id, "autosar.short_name_non_empty");
    assert_eq!(a[1].mode, ConstraintMode::Live);
    assert_eq!(a[6].severity, Severity::Warning);
    assert!(a.iter().all(|c| c.target.is_none()));
    let e = register_ecuc_constraints();
    assert_eq!(e.len(), 7);
    assert_eq!(e[5].target.as_deref(), Some("EcucEnumerationParamDef"));
    assert_eq!(e[5].check, ConstraintCheck::EcucEnumerationParamDefHasLiterals);
    assert!(e.iter().all(|c| c.mode == ConstraintMode::Batch));
}

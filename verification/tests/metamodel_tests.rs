use artop::artop_codegen::{ecore_to_model, generator};
use artop::artop_common::diagnostic::Severity;
use artop::artop_common::elist::{BasicEList, EList};
use artop::artop_common::eobject::EObject;
use artop::artop_common::enotifier::NotificationKind;
use artop::artop_common::epackage_registry::EPackageRegistry;
use artop::artop_common::feature_map::FeatureId;
use artop::artop_common::notification::EventType;
use artop::artop_common::uri::Uri;
use artop::artop_ecore::{
    make_package_ref, ClassifierKind, EClass, EClassifier, EFactory, EPackage,
    EStructuralFeature, PackageRegistry,
};
use artop::artop_runtime::{
    autosar_metamodel, deserialization, resource_factory, serialization, version_metadata,
};
use artop::artop_sphinx::headless_core;
use artop::artop_xcore::{dsl, parser};
use artop::emf_compare::comparison::{Conflict, ConflictKind, Dependency, Equivalence, MatchKind};
use artop::emf_compare::merge_engine::MergeReport;

#[test]
fn elist_behaves() {
    let mut l = BasicEList::new();
    l.push(1);
    l.push(2);
    assert_eq!(l.len(), 2);
    assert_eq!(l.get(1), Some(&2));
    assert_eq!(l.remove(0), Some(1));
}

#[test]
fn uri_and_severity_roundtrip() {
    let u = Uri::new("file:///x.arxml");
    assert_eq!(u.value(), "file:///x.arxml");
    assert_eq!(Severity::Error, Severity::Error);
}

#[test]
fn eclass_metadata_roundtrip() {
    let c = EClass::new(
        "ARElement",
        ClassifierKind::Class,
        vec!["Identifiable".to_string()],
        vec![EStructuralFeature {
            name: "shortName".into(),
            is_reference: false,
            lower_bound: 0,
            upper_bound: 1,
        }],
    );
    assert_eq!(c.name(), "ARElement");
    assert!(!c.is_abstract());
    assert_eq!(c.e_super_types(), &["Identifiable"]);
    assert_eq!(c.own_feature_names().collect::<Vec<_>>(), ["shortName"]);
    assert_eq!(c.e_class(), "EClass");
}

#[test]
fn abstract_class_has_no_constructible_type() {
    let a = EClass::new("ARObject", ClassifierKind::AbstractClass, vec![], vec![]);
    assert!(a.is_abstract());
}

#[test]
fn package_registry_lookup_by_ns_uri() {
    let mut pkg = EPackage::new("sample");
    pkg.set_ns_uri("http://sample/2.0");
    let mut reg = PackageRegistry::new();
    reg.register(make_package_ref(pkg));

    assert!(reg.package("sample").is_some());
    assert!(reg.package_by_ns_uri("http://sample/2.0").is_some());
    assert!(reg.package_by_ns_uri("http://other").is_none());
}

#[test]
fn lib_skeleton_compiles() {
    assert_eq!(headless_core::api_surface(), "artop-sphinx::headless_core");
    assert_eq!(parser::api_surface(), "artop-xcore::parser");
    assert_eq!(generator::api_surface(), "artop-codegen::generator");
    assert_eq!(serialization::api_surface(), "artop-runtime::serialization");
}

// Own tests.

#[test]
fn api_surfaces_name_their_units() {
    assert_eq!(dsl::api_surface(), "artop-xcore::dsl");
    assert_eq!(ecore_to_model::api_surface(), "artop-codegen::ecore_to_model");
    assert_eq!(deserialization::api_surface(), "artop-runtime::deserialization");
    assert_eq!(resource_factory::api_surface(), "artop-runtime::resource_factory");
    assert_eq!(version_metadata::api_surface(), "artop-runtime::version_metadata");
    assert_eq!(autosar_metamodel::api_surface(), "artop-runtime::autosar_metamodel");
}

#[test]
fn epackage_registry_first_registration_wins() {
    let mut r = EPackageRegistry::new();
    assert_eq!(r.lookup("http://a"), None);
    r.register("http://a", "pa");
    r.register("http://b", "pb");
    r.register("http://a", "pa2");
    assert_eq!(r.lookup("http://a"), Some("pa"));
    assert_eq!(r.lookup("http://b"), Some("pb"));
    assert_eq!(r.lookup("http://c"), None);
}

#[test]
fn event_type_names() {
    assert_eq!(EventType::SetValue.name(), "SET");
    assert_eq!(EventType::RemovingAdapter.name(), "REMOVING_ADAPTER");
    assert_eq!(EventType::ContentType.name(), "CONTENT_TYPE");
    assert_eq!(artop::emf_common::notification::EventType::AddMany.name(), "ADD_MANY");
}

#[test]
fn small_value_types() {
    assert_eq!(FeatureId(3), FeatureId(3));
    assert_ne!(NotificationKind::Add, NotificationKind::Move);
    assert_eq!(Uri::new("u").to_string(), "u");
    let l: BasicEList<u8> = BasicEList::default();
    assert!(l.is_empty());
    assert_eq!(l.as_slice(), &[] as &[u8]);
    assert_eq!(EFactory::KIND, "artop-ecore.EFactory");
}

#[test]
fn elist_remove_out_of_range() {
    let mut l = BasicEList::new();
    l.push('a');
    assert_eq!(l.remove(3), None);
    assert_eq!(l.get(3), None);
    assert_eq!(l.into_iter().collect::<Vec<_>>(), vec!['a']);
}

#[test]
fn package_accessors_and_lookup_by_name() {
    let mut p = EPackage::new("p1");
    assert!(p.ns_uri().is_none());
    p.set_ns_uri("http://p1");
    assert_eq!(p.ns_uri().unwrap().value(), "http://p1");
    assert_eq!(p.name(), "p1");
    assert!(p.classifiers().is_empty());
    assert_eq!(p.e_class(), "EPackage");
    let mut reg = PackageRegistry::new();
    reg.register(p);
    reg.register(EPackage::new("p2"));
    assert_eq!(reg.package("p2").unwrap().name(), "p2");
    assert!(reg.package("p3").is_none());
    assert_eq!(EClassifier::new(ClassifierKind::Enum).kind(), ClassifierKind::Enum);
}

#[test]
fn conflict_and_equivalence_keep_indices_unique() {
    let mut c = Conflict::new(ConflictKind::Pseudo);
    c.push_diff(2);
    c.push_diff(5);
    c.push_diff(2);
    assert_eq!(c.diff_indices(), &[2, 5]);
    assert_eq!(c.kind(), ConflictKind::Pseudo);
    c.set_kind(ConflictKind::Real);
    assert_eq!(c.kind(), ConflictKind::Real);
    assert_eq!(Conflict::default().kind(), ConflictKind::Real);
    let mut e = Equivalence::default();
    e.add_match(1);
    e.add_match(1);
    e.add_match(0);
    assert_eq!(e.matches(), &[1, 0]);
    let d = Dependency::new(3, 4);
    assert_eq!((d.source(), d.target()), (3, 4));
    assert_ne!(MatchKind::Identical, MatchKind::Different);
    assert_eq!(MergeReport::default(), MergeReport { applied: 0, skipped: 0 });
}

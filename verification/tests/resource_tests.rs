use artop::artop_common::eobject::EObject;
use artop::emf_common::resource::{Resource, ResourceSet};
use artop::emf_common::uri::Uri;
use std::cell::RefCell;
use std::rc::Rc;

/// An object handle, as a model holds its objects.
type ObjectRef = Rc<RefCell<dyn EObject>>;

struct R;

impl EObject for R {
    fn e_class(&self) -> &'static str {
        "Root"
    }
}

struct Stub;

impl EObject for Stub {
    fn e_class(&self) -> &'static str {
        "Stub"
    }
}

fn obj() -> ObjectRef {
    Rc::new(RefCell::new(Stub))
}

type Res = Resource<ObjectRef>;

#[test]
fn resource_roundtrip_uri_and_contents() {
    let mut r: Res = Resource::new(Uri::parse("file:///a.xmi"));
    assert!(r.uri().is_file());
    let rc: ObjectRef = Rc::new(RefCell::new(R {}));
    r.add_to_contents(Rc::clone(&rc));
    assert_eq!(r.contents().len(), 1);
    assert_eq!(r.root().unwrap().borrow().e_class(), "Root");
}

#[test]
fn default_resource_state() {
    let r: Res = Resource::new(Uri::default());
    assert!(r.contents().is_empty());
    assert!(r.root().is_none());
    assert!(!r.is_loaded());
    assert!(!r.is_modified());
    assert!(r.errors().is_empty());
    assert!(r.warnings().is_empty());
    assert!(r.uri().to_string().is_empty() || r.uri().to_string() == "");
}

#[test]
fn set_root_returns_same() {
    let mut r: Res = Resource::new(Uri::parse("file:///a.xmi"));
    let rc: ObjectRef = Rc::new(RefCell::new(R {}));
    r.set_root(Rc::clone(&rc));
    assert_eq!(r.contents().len(), 1);
    let got = r.root().expect("root set");
    assert!(Rc::ptr_eq(got, &rc));
}

#[test]
fn set_uri_updates_resource() {
    let mut r: Res = Resource::new(Uri::parse("file:///before.xmi"));
    assert!(r.uri().is_file());
    r.set_uri(Uri::parse("platform:/resource/m/after.xmi"));
    assert!(!r.uri().is_file());
    assert!(r.uri().is_platform());
}

#[test]
fn set_loaded_and_modified_flags() {
    let mut r: Res = Resource::new(Uri::default());
    r.set_loaded(true);
    assert!(r.is_loaded());
    r.set_modified(true);
    assert!(r.is_modified());
    r.set_loaded(false);
    r.set_modified(false);
    assert!(!r.is_loaded());
    assert!(!r.is_modified());
}

#[test]
fn errors_and_warnings_persist() {
    let mut r: Res = Resource::new(Uri::default());
    r.set_errors(vec!["boom".into()]);
    r.set_warnings(vec!["careful".into()]);
    assert_eq!(r.errors(), ["boom"]);
    assert_eq!(r.warnings(), ["careful"]);
}

#[test]
fn resource_set_creates_and_looks_up() {
    let mut set: ResourceSet<ObjectRef> = ResourceSet::new();
    set.create_resource(Uri::parse("file:///r1.xmi"));
    set.create_resource(Uri::parse("file:///r2.xmi"));
    assert_eq!(set.resources().len(), 2);
    assert!(set.get_resource(&Uri::parse("file:///r1.xmi")).is_some());
    assert!(set.get_resource(&Uri::parse("file:///nope.xmi")).is_none());
}

#[test]
fn save_load_stream_defaults_no_throw() {
    let mut r: Res = Resource::new(Uri::default());
    assert_eq!(r.save_to_string(), "");
    r.load_from_string("anything");
    assert!(!r.is_loaded());
}

#[test]
fn to_xmi_string_delegates_save() {
    let r: Res = Resource::new(Uri::default());
    assert_eq!(r.to_xmi_string(), "");
}

#[test]
fn from_xmi_string_delegates_load_no_throw() {
    let mut r: Res = Resource::new(Uri::default());
    r.from_xmi_string("<x/>");
    assert!(!r.is_loaded());
}

#[test]
fn get_eobject_empty_fragment_is_none() {
    let r: Res = Resource::new(Uri::default());
    assert!(r.get_eobject("").is_none());
    assert!(r.get_eobject("//_1").is_none());
}

#[test]
fn get_uri_fragment_returns_empty() {
    let r: Res = Resource::new(Uri::default());
    let rc: ObjectRef = Rc::new(RefCell::new(R {}));
    assert_eq!(r.get_uri_fragment(&rc), "");
}

// ---- scenario suite ------------------------------------------------------

#[test]
fn resource_get_uri_construction() {
    let r: Res = Resource::new(Uri::parse("http://example.com/x.mi"));
    assert_eq!(r.uri().scheme(), "http");
    assert_eq!(r.uri().authority(), "example.com");
    assert_eq!(r.uri().path(), "/x.mi");
}

#[test]
fn resource_set_uri_updates() {
    let mut r: Res = Resource::new(Uri::parse("http://a/b.mi"));
    r.set_uri(Uri::parse("http://c/d.mi"));
    assert_eq!(r.uri().authority(), "c");
    assert_eq!(r.uri().path(), "/d.mi");
}

#[test]
fn resource_default_uri_empty() {
    let r: Res = Resource::new(Uri::new());
    assert!(r.uri().is_empty());
}

#[test]
fn resource_default_contents_empty() {
    let r: Res = Resource::new(Uri::parse("u"));
    assert!(r.contents().is_empty());
}

#[test]
fn resource_add_to_contents_appends() {
    let mut r: Res = Resource::new(Uri::parse("u"));
    let o1 = obj();
    let o2 = obj();
    r.add_to_contents(o1.clone());
    r.add_to_contents(o2.clone());
    assert_eq!(r.contents().len(), 2);
    assert!(Rc::ptr_eq(&r.contents()[0], &o1));
    assert!(Rc::ptr_eq(&r.contents()[1], &o2));
}

#[test]
fn resource_default_root_none() {
    let r: Res = Resource::new(Uri::parse("u"));
    assert!(r.root().is_none());
}

#[test]
fn resource_set_root_returns_same() {
    let mut r: Res = Resource::new(Uri::parse("u"));
    let o = obj();
    r.set_root(o.clone());
    assert!(r.root().is_some_and(|ro| Rc::ptr_eq(ro, &o)));
}

#[test]
fn resource_default_resource_set_none() {
    let r: Res = Resource::new(Uri::parse("u"));
    assert!(r.contents().is_empty());
}

#[test]
fn resource_default_not_loaded() {
    let r: Res = Resource::new(Uri::parse("u"));
    assert!(!r.is_loaded());
}

#[test]
fn resource_set_loaded_true() {
    let mut r: Res = Resource::new(Uri::parse("u"));
    r.set_loaded(true);
    assert!(r.is_loaded());
    r.set_loaded(false);
    assert!(!r.is_loaded());
}

#[test]
fn resource_default_not_modified() {
    let r: Res = Resource::new(Uri::parse("u"));
    assert!(!r.is_modified());
}

#[test]
fn resource_set_modified_true() {
    let mut r: Res = Resource::new(Uri::parse("u"));
    r.set_modified(true);
    assert!(r.is_modified());
    r.set_modified(false);
    assert!(!r.is_modified());
}

#[test]
fn resource_default_empty_errors_and_warnings() {
    let r: Res = Resource::new(Uri::parse("u"));
    assert!(r.errors().is_empty());
    assert!(r.warnings().is_empty());
}

#[test]
fn resource_add_error_persists() {
    let mut r: Res = Resource::new(Uri::parse("u"));
    r.set_errors(vec!["bad element".into(), "missing attr".into()]);
    assert_eq!(r.errors().len(), 2);
    assert_eq!(r.errors()[0], "bad element");
    assert_eq!(r.errors()[1], "missing attr");
}

#[test]
fn resource_add_warning_persists() {
    let mut r: Res = Resource::new(Uri::parse("u"));
    r.set_warnings(vec!["deprecated".into()]);
    assert_eq!(r.warnings().len(), 1);
    assert_eq!(r.warnings()[0], "deprecated");
}

#[test]
fn resource_save_load_defaults_no_throw() {
    let r: Res = Resource::new(Uri::parse("u"));
    assert!(r.save_to_string().is_empty());
    assert!(r.to_xmi_string().is_empty());
}

#[test]
fn resource_from_xmi_string_no_throw_not_loaded() {
    let mut r: Res = Resource::new(Uri::parse("u"));
    r.from_xmi_string("<x/>");
    assert!(!r.is_loaded());
}

#[test]
fn resource_get_eobject_empty_fragment_none() {
    let r: Res = Resource::new(Uri::parse("u"));
    assert!(r.get_eobject("").is_none());
}

#[test]
fn resource_get_uri_fragment_null_object_empty() {
    let r: Res = Resource::new(Uri::parse("u"));
    let stub = obj();
    let frag = r.get_uri_fragment(&stub);
    assert!(frag.is_empty());
}

// ---- load/save targets, modification tracking ------------------------------

#[test]
fn load_and_save_targets() {
    let r: Res = Resource::new(Uri::parse("file:///tmp/model.xmi"));
    assert_eq!(r.load_target(), Ok("/tmp/model.xmi".to_string()));
    assert_eq!(r.save_target(), Ok("/tmp/model.xmi".to_string()));
    let h: Res = Resource::new(Uri::parse("http://host/model.xmi"));
    assert_eq!(h.load_target(), Err("no stream available for scheme 'http'".to_string()));
    assert_eq!(h.save_target(), Err("no stream available for scheme 'http'".to_string()));
    let e: Res = Resource::new(Uri::parse("file:"));
    assert_eq!(e.load_target(), Err("cannot load from empty file path".to_string()));
    assert_eq!(e.save_target(), Err("cannot save to empty file path".to_string()));
}

#[test]
fn finish_load_and_save_update_flags() {
    let mut r: Res = Resource::new(Uri::parse("file:///m.xmi"));
    r.add_to_contents(obj());
    assert!(r.is_modified());
    r.finish_save();
    assert!(!r.is_modified());
    r.finish_load("<x/>");
    assert!(r.is_loaded());
    assert_eq!(r.contents().len(), 1);
    r.set_contents(vec![obj(), obj()]);
    assert_eq!(r.contents().len(), 2);
    r.clear_contents();
    assert!(r.contents().is_empty());
    assert!(r.is_modified());
}

#[test]
fn resource_set_finds_first_of_equal_uris() {
    let mut set: ResourceSet<ObjectRef> = ResourceSet::new();
    set.create_resource(Uri::parse("file:///same.xmi")).set_loaded(true);
    set.create_resource(Uri::parse("file:///same.xmi"));
    let found = set.get_resource(&Uri::parse("file:///same.xmi")).unwrap();
    assert!(found.is_loaded());
}

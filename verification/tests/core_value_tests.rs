use model_manager::core_value::SerdeCoreValue;
use model_manager::errors::ModelError;
use model_manager::number::JsonNumber;
use model_manager::traits::{CoreValue, PathNavigation, ValueAnalysis, ValueIntrospection};

fn message(e: ModelError) -> String {
    match e {
        ModelError::InvalidData(m) => m,
        other => panic!("expected an invalid-data error, got {:?}", other),
    }
}

fn text(s: &str) -> SerdeCoreValue {
    SerdeCoreValue::from_str(s)
}

fn person() -> SerdeCoreValue {
    let mut p = SerdeCoreValue::new_object();
    p.set("name", text("Ana")).unwrap();
    p.set("age", SerdeCoreValue::from_number_value(JsonNumber::PosInt(30)).unwrap()).unwrap();
    p.set("active", SerdeCoreValue::from_bool(true)).unwrap();
    p
}

#[test]
fn kinds_and_type_names() {
    assert_eq!(SerdeCoreValue::new_object().get_type(), "Object");
    assert_eq!(SerdeCoreValue::new_array().get_type(), "Array");
    assert_eq!(text("x").get_type(), "String");
    assert_eq!(SerdeCoreValue::from_bool(false).get_type(), "Bool");
    assert_eq!(SerdeCoreValue::from_number(2.5f64.to_bits()).unwrap().get_type(), "Number");
    assert!(SerdeCoreValue::new_object().is_object());
    assert!(!SerdeCoreValue::new_object().is_array());
    assert!(SerdeCoreValue::new_array().is_array());
}

#[test]
fn emptiness() {
    assert!(SerdeCoreValue::new_object().is_empty());
    assert!(SerdeCoreValue::new_array().is_empty());
    assert!(text("").is_empty());
    assert!(!text("a").is_empty());
    assert!(!SerdeCoreValue::from_bool(false).is_empty());
    assert!(!person().is_empty());
}

#[test]
fn scalar_accessors() {
    assert_eq!(text("hola").as_str(), Some("hola".to_string()));
    assert_eq!(SerdeCoreValue::from_bool(true).as_bool(), Some(true));
    assert_eq!(text("hola").as_bool(), None);
    assert_eq!(SerdeCoreValue::from_bool(true).as_str(), None);
    let n = SerdeCoreValue::from_number(1.5f64.to_bits()).unwrap();
    assert_eq!(n.as_number(), Some(JsonNumber::Float(1.5f64.to_bits())));
    assert_eq!(text("1").as_number(), None);
}

#[test]
fn from_number_refuses_non_finite_doubles() {
    let nan = SerdeCoreValue::from_number(f64::NAN.to_bits());
    assert!(matches!(nan, Err(ModelError::InvalidData(ref m)) if m == "Non-finite number: NaN"));
    let inf = SerdeCoreValue::from_number(f64::INFINITY.to_bits());
    assert!(matches!(inf, Err(ModelError::InvalidData(ref m)) if m == "Non-finite number: inf"));
    let ninf = SerdeCoreValue::from_number(f64::NEG_INFINITY.to_bits());
    assert!(matches!(ninf, Err(ModelError::InvalidData(ref m)) if m == "Non-finite number: -inf"));
}

#[test]
fn from_number_value_refuses_malformed_numbers() {
    assert!(SerdeCoreValue::from_number_value(JsonNumber::NegInt(-4)).is_ok());
    assert!(matches!(
        SerdeCoreValue::from_number_value(JsonNumber::NegInt(4)),
        Err(ModelError::InvalidData(ref m)) if m == "Invalid number"
    ));
    assert!(matches!(
        SerdeCoreValue::from_number_value(JsonNumber::Float(f64::NAN.to_bits())),
        Err(ModelError::InvalidData(ref m)) if m == "Invalid number"
    ));
}

#[test]
fn get_and_set_on_objects() {
    let p = person();
    let name = p.get("name").unwrap().unwrap();
    assert_eq!(name.as_str(), Some("Ana".to_string()));
    assert!(p.get("missing").unwrap().is_none());
    assert!(text("x").get("name").unwrap().is_none());
}

#[test]
fn set_replaces_an_existing_key() {
    let mut p = person();
    p.set("name", text("Luis")).unwrap();
    assert_eq!(p.get("name").unwrap().unwrap().as_str(), Some("Luis".to_string()));
    assert_eq!(p.count_properties().unwrap(), 3);
}

#[test]
fn set_on_non_object_is_refused() {
    let mut a = SerdeCoreValue::new_array();
    let e = a.set("k", text("v")).err().unwrap();
    assert_eq!(message(e), "Cannot set key on non-object value");
    assert!(a.is_empty());
}

#[test]
fn push_and_as_array() {
    let mut a = SerdeCoreValue::new_array();
    a.push(text("a")).unwrap();
    a.push(SerdeCoreValue::from_bool(true)).unwrap();
    let items = a.as_array().unwrap().unwrap();
    assert_eq!(items.len(), 2);
    assert_eq!(items[0].as_str(), Some("a".to_string()));
    assert_eq!(items[1].as_bool(), Some(true));
    assert!(person().as_array().unwrap().is_none());
}

#[test]
fn push_on_non_array_is_refused() {
    let mut o = SerdeCoreValue::new_object();
    let e = o.push(text("v")).err().unwrap();
    assert_eq!(message(e), "Cannot push to non-array value");
}

#[test]
fn remove_key_and_remove_at() {
    let mut p = person();
    let removed = p.remove_key("age").unwrap().unwrap();
    assert_eq!(removed.as_number(), Some(JsonNumber::PosInt(30)));
    assert!(p.remove_key("age").unwrap().is_none());
    assert!(!p.has_property("age").unwrap());

    let mut a = SerdeCoreValue::new_array();
    a.push(text("a")).unwrap();
    a.push(text("b")).unwrap();
    let first = a.remove_at(0).unwrap().unwrap();
    assert_eq!(first.as_str(), Some("a".to_string()));
    assert!(a.remove_at(5).unwrap().is_none());
    assert_eq!(a.as_array().unwrap().unwrap().len(), 1);

    let e = text("x").remove_key("k").err().unwrap();
    assert_eq!(message(e), "Cannot remove key from non-object value");
    let e = SerdeCoreValue::new_object().remove_at(0).err().unwrap();
    assert_eq!(message(e), "Cannot remove index from non-array value");
}

#[test]
fn introspection_of_objects() {
    let p = person();
    assert!(p.has_property("name").unwrap());
    assert!(!p.has_property("email").unwrap());
    assert_eq!(p.get_property_type("age").unwrap(), Some("Number".to_string()));
    assert_eq!(p.get_property_type("active").unwrap(), Some("Bool".to_string()));
    assert_eq!(p.get_property_type("nope").unwrap(), None);
    assert_eq!(p.get_property_names().unwrap(), vec!["active", "age", "name"]);
    assert_eq!(p.count_properties().unwrap(), 3);
}

#[test]
fn introspection_of_non_objects_is_refused() {
    let v = text("x");
    assert_eq!(message(v.has_property("a").err().unwrap()), "Cannot check property on non-object value");
    assert_eq!(
        message(v.get_property_type("a").err().unwrap()),
        "Cannot get property type on non-object value"
    );
    assert_eq!(
        message(v.get_property_names().err().unwrap()),
        "Cannot get property names on non-object value"
    );
    assert_eq!(message(v.count_properties().err().unwrap()), "Cannot count properties on non-object value");
}

#[test]
fn set_by_path_creates_intermediate_objects() {
    let mut root = SerdeCoreValue::new_object();
    root.set_by_path("user.address.city", text("Lima")).unwrap();
    let city = root.get_by_path("user.address.city").unwrap().unwrap();
    assert_eq!(city.as_str(), Some("Lima".to_string()));
    assert!(root.has_path("user.address").unwrap());
    assert!(!root.has_path("user.phone").unwrap());
    assert!(root.get("user").unwrap().unwrap().is_object());
}

#[test]
fn set_by_path_replaces_scalars_on_the_way() {
    let mut root = SerdeCoreValue::new_object();
    root.set("a", text("scalar")).unwrap();
    root.set_by_path("a.b", SerdeCoreValue::from_bool(true)).unwrap();
    assert_eq!(root.get_by_path("a.b").unwrap().unwrap().as_bool(), Some(true));
}

#[test]
fn set_by_path_normalizes_the_path_once_valid() {
    let mut root = SerdeCoreValue::new_object();
    root.set_by_path(" x.y ", SerdeCoreValue::from_bool(false)).unwrap();
    assert_eq!(root.get_by_path("x.y").unwrap().unwrap().as_bool(), Some(false));
}

#[test]
fn set_by_path_errors() {
    let mut root = SerdeCoreValue::new_object();
    assert_eq!(message(root.set_by_path("", text("v")).err().unwrap()), "Empty path not allowed");
    assert_eq!(
        message(root.set_by_path("a..b", text("v")).err().unwrap()),
        "Invalid path 'a..b': empty segment at position 1"
    );
    assert_eq!(
        message(root.set_by_path("   ", text("v")).err().unwrap()),
        "Path becomes empty after normalization"
    );
    let mut arr = SerdeCoreValue::new_array();
    assert_eq!(
        message(arr.set_by_path("a", text("v")).err().unwrap()),
        "Cannot set path on non-object root value"
    );
    assert!(root.is_empty());
}

#[test]
fn get_by_path_of_empty_path_is_the_value_itself() {
    let p = person();
    let whole = p.get_by_path("").unwrap().unwrap();
    assert!(whole.equals(&p).unwrap());
    assert!(p.get_by_path("name.first").unwrap().is_none());
}

#[test]
fn merge_objects_deeply() {
    let mut a = SerdeCoreValue::new_object();
    a.set_by_path("cfg.x", text("1")).unwrap();
    let mut list = SerdeCoreValue::new_array();
    list.push(text("a")).unwrap();
    a.set("list", list).unwrap();

    let mut b = SerdeCoreValue::new_object();
    b.set_by_path("cfg.y", text("2")).unwrap();
    let mut more = SerdeCoreValue::new_array();
    more.push(text("b")).unwrap();
    b.set("list", more).unwrap();
    b.set("extra", SerdeCoreValue::from_bool(true)).unwrap();

    a.merge(&b).unwrap();
    assert_eq!(a.get_by_path("cfg.x").unwrap().unwrap().as_str(), Some("1".to_string()));
    assert_eq!(a.get_by_path("cfg.y").unwrap().unwrap().as_str(), Some("2".to_string()));
    let merged = a.get("list").unwrap().unwrap().as_array().unwrap().unwrap();
    assert_eq!(merged.len(), 2);
    assert_eq!(merged[1].as_str(), Some("b".to_string()));
    assert_eq!(a.get("extra").unwrap().unwrap().as_bool(), Some(true));
}

#[test]
fn merge_of_different_kinds_replaces() {
    let mut a = text("old");
    a.merge(&SerdeCoreValue::from_bool(true)).unwrap();
    assert_eq!(a.as_bool(), Some(true));
    let mut o = person();
    o.merge(&text("x")).unwrap();
    assert_eq!(o.as_str(), Some("x".to_string()));
}

#[test]
fn equality_of_values() {
    assert!(person().equals(&person()).unwrap());
    let mut other = person();
    other.set("name", text("Eva")).unwrap();
    assert!(!person().equals(&other).unwrap());
    let one_int = SerdeCoreValue::from_number_value(JsonNumber::PosInt(1)).unwrap();
    let one_float = SerdeCoreValue::from_number(1.0f64.to_bits()).unwrap();
    assert!(!one_int.equals(&one_float).unwrap());
    let zero = SerdeCoreValue::from_number(0.0f64.to_bits()).unwrap();
    let neg_zero = SerdeCoreValue::from_number((-0.0f64).to_bits()).unwrap();
    assert!(zero.equals(&neg_zero).unwrap());
    assert!(!text("a").equals(&SerdeCoreValue::from_bool(true)).unwrap());
}

#[test]
fn deep_clone_is_equal_and_independent() {
    let p = person();
    let mut c = p.deep_clone().unwrap();
    assert!(c.equals(&p).unwrap());
    c.set("name", text("Other")).unwrap();
    assert_eq!(p.get("name").unwrap().unwrap().as_str(), Some("Ana".to_string()));
}

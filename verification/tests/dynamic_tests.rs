use model_manager::dynamic::{DynamicValue, DynamicValueConverter, DynamicValueImpl, JsonToDynamicValueConverter};
use model_manager::errors::DynamicError;
use model_manager::number::JsonNumber;
use model_manager::value::JsonValue;

fn s(t: &str) -> DynamicValueImpl {
    DynamicValueImpl::from_str(t)
}

fn type_mismatch(r: Result<(), DynamicError>) -> String {
    match r {
        Err(DynamicError::TypeMismatch(m)) => m,
        other => panic!("expected a type mismatch, got {:?}", other),
    }
}

fn invalid_path(r: Result<(), DynamicError>) -> String {
    match r {
        Err(DynamicError::InvalidPath(m)) => m,
        other => panic!("expected an invalid path, got {:?}", other),
    }
}

#[test]
fn dynamic_constructors_and_kinds() {
    assert!(DynamicValueImpl::new_object().is_object());
    assert!(DynamicValueImpl::new_array().is_array());
    assert_eq!(s("x").as_str(), Some("x".to_string()));
    assert_eq!(DynamicValueImpl::from_bool(true).as_bool(), Some(true));
    assert_eq!(s("x").get_type(), "String");
    assert_eq!(DynamicValueImpl::new_object().get_type(), "Object");
    let n = DynamicValueImpl::from_number(2.0f64.to_bits()).unwrap();
    assert_eq!(n.as_number(), Some(JsonNumber::Float(2.0f64.to_bits())));
}

#[test]
fn dynamic_from_number_refuses_non_finite() {
    match DynamicValueImpl::from_number(f64::NAN.to_bits()) {
        Err(DynamicError::InvalidNumber(m)) => assert_eq!(m, "Número inválido (NaN o infinito)"),
        _ => panic!("NaN must be refused"),
    }
    assert!(DynamicValueImpl::from_number(f64::INFINITY.to_bits()).is_err());
}

#[test]
fn dynamic_set_get_remove() {
    let mut o = DynamicValueImpl::new_object();
    o.set("b", s("2")).unwrap();
    o.set("a", s("1")).unwrap();
    assert_eq!(o.get("a").unwrap().as_str(), Some("1".to_string()));
    assert!(o.get("zz").is_none());
    assert_eq!(o.keys(), vec!["a", "b"]);
    let all: Vec<String> = o.get_all().iter().map(|v| v.as_str().unwrap()).collect();
    assert_eq!(all, vec!["1", "2"]);
    o.remove("a").unwrap();
    o.remove("missing").unwrap();
    assert_eq!(o.keys(), vec!["b"]);
}

#[test]
fn dynamic_errors_on_wrong_kinds() {
    let mut a = DynamicValueImpl::new_array();
    assert_eq!(
        type_mismatch(a.set("k", s("v"))),
        "No se puede establecer una clave en un valor que no es objeto"
    );
    assert_eq!(
        type_mismatch(a.remove("k")),
        "No se puede eliminar una clave en un valor que no es objeto"
    );
    let mut o = DynamicValueImpl::new_object();
    assert_eq!(
        type_mismatch(o.push(s("v"))),
        "No se puede agregar un elemento a un valor que no es arreglo"
    );
    assert!(a.keys().is_empty());
    assert!(a.get_all().is_empty());
}

#[test]
fn dynamic_push_and_arrays() {
    let mut a = DynamicValueImpl::new_array();
    a.push(s("x")).unwrap();
    a.push(s("y")).unwrap();
    let items = a.as_array().unwrap();
    assert_eq!(items.len(), 2);
    assert_eq!(items[1].as_str(), Some("y".to_string()));
    assert_eq!(a.iter_array().unwrap().len(), 2);
    assert!(a.iter_object().is_none());
    assert!(a.as_map().is_none());
}

#[test]
fn dynamic_maps_in_key_order() {
    let mut o = DynamicValueImpl::new_object();
    o.set("z", s("last")).unwrap();
    o.set("m", s("mid")).unwrap();
    let entries = o.as_map().unwrap();
    assert_eq!(entries[0].0, "m");
    assert_eq!(entries[1].0, "z");
    let it = o.iter_object().unwrap();
    assert_eq!(it[1].1.as_str(), Some("last".to_string()));
}

#[test]
fn dynamic_emptiness() {
    assert!(DynamicValueImpl::new_object().is_empty());
    assert!(s("").is_empty());
    assert!(!s("x").is_empty());
    assert!(!DynamicValueImpl::from_bool(false).is_empty());
}

#[test]
fn dynamic_paths() {
    let mut o = DynamicValueImpl::new_object();
    o.set_by_path("user.profile.name", s("Eva")).unwrap();
    assert_eq!(
        o.get_by_path("user.profile.name").unwrap().unwrap().as_str(),
        Some("Eva".to_string())
    );
    assert!(o.get_by_path("user.nothing").unwrap().is_none());
    o.set_by_path("top", s("t")).unwrap();
    assert_eq!(o.get("top").unwrap().as_str(), Some("t".to_string()));
}

#[test]
fn dynamic_invalid_paths() {
    let mut o = DynamicValueImpl::new_object();
    assert_eq!(invalid_path(o.set_by_path("a..b", s("v"))), "Path inválido: 'a..b'");
    assert_eq!(invalid_path(o.set_by_path("", s("v"))), "Path inválido: ''");
    match o.get_by_path(".a") {
        Err(DynamicError::InvalidPath(m)) => assert_eq!(m, "Path inválido: '.a'"),
        _ => panic!("expected an invalid path"),
    }
    assert!(o.is_empty());
}

#[test]
fn dynamic_set_by_path_through_a_scalar_fails() {
    let mut o = DynamicValueImpl::new_object();
    o.set("a", s("scalar")).unwrap();
    assert_eq!(
        type_mismatch(o.set_by_path("a.b", s("v"))),
        "No se puede establecer una clave en un valor que no es objeto"
    );
    assert_eq!(o.get("a").unwrap().as_str(), Some("scalar".to_string()));
}

#[test]
fn dynamic_set_by_path_on_a_scalar_root_makes_it_an_object() {
    let mut v = s("root");
    v.set_by_path("a.b", s("v")).unwrap();
    assert!(v.is_object());
    assert_eq!(v.get_by_path("a.b").unwrap().unwrap().as_str(), Some("v".to_string()));
    let mut w = s("root");
    assert!(w.set_by_path("single", s("v")).is_err());
    assert_eq!(w.as_str(), Some("root".to_string()));
}

#[test]
fn dynamic_merge() {
    let mut a = DynamicValueImpl::new_object();
    a.set_by_path("cfg.x", s("1")).unwrap();
    a.set("keep", s("k")).unwrap();
    let mut b = DynamicValueImpl::new_object();
    b.set_by_path("cfg.y", s("2")).unwrap();
    b.set("keep", s("new")).unwrap();
    a.merge(&b).unwrap();
    assert_eq!(a.get_by_path("cfg.x").unwrap().unwrap().as_str(), Some("1".to_string()));
    assert_eq!(a.get_by_path("cfg.y").unwrap().unwrap().as_str(), Some("2".to_string()));
    assert_eq!(a.get("keep").unwrap().as_str(), Some("new".to_string()));
}

#[test]
fn dynamic_merge_refuses_non_objects() {
    let mut arr = DynamicValueImpl::new_array();
    assert_eq!(type_mismatch(arr.merge(&DynamicValueImpl::new_object())), "Solo se pueden mergear objetos");
    let mut o = DynamicValueImpl::new_object();
    assert_eq!(type_mismatch(o.merge(&s("x"))), "El valor a mergear debe ser un objeto");
}

#[test]
fn dynamic_schema_matching() {
    let mut record = DynamicValueImpl::new_object();
    record.set("name", s("Ana")).unwrap();
    record.set("age", DynamicValueImpl::from_number(30.0f64.to_bits()).unwrap()).unwrap();
    record.set("tags", DynamicValueImpl::new_array()).unwrap();

    let mut schema = DynamicValueImpl::new_object();
    schema.set("name", s("string")).unwrap();
    schema.set("age", s("number")).unwrap();
    schema.set("tags", s("array")).unwrap();
    assert!(record.matches_schema(&schema));

    let mut wrong = DynamicValueImpl::new_object();
    wrong.set("name", s("boolean")).unwrap();
    assert!(!record.matches_schema(&wrong));

    let mut missing = DynamicValueImpl::new_object();
    missing.set("email", s("string")).unwrap();
    assert!(!record.matches_schema(&missing));

    assert!(DynamicValueImpl::from_bool(true).matches_schema(&s("boolean")));
    assert!(!s("x").matches_schema(&s("unknown")));
    assert!(!s("x").matches_schema(&DynamicValueImpl::from_bool(true)));
    assert!(!s("x").matches_schema(&schema));
}

#[test]
fn dynamic_path_helpers() {
    assert!(DynamicValueImpl::is_valid_path("a.b"));
    assert!(!DynamicValueImpl::is_valid_path("a."));
    assert_eq!(DynamicValueImpl::split_path("a.b"), vec!["a", "b"]);
    assert_eq!(DynamicValueImpl::split_path(""), vec![""]);
}

#[test]
fn dynamic_deep_clone_is_independent() {
    let mut o = DynamicValueImpl::new_object();
    o.set("k", s("v")).unwrap();
    let mut c = o.deep_clone();
    c.set("k", s("w")).unwrap();
    assert_eq!(o.get("k").unwrap().as_str(), Some("v".to_string()));
}

#[test]
fn dynamic_from_serde_value_checks_well_formedness() {
    let ok = JsonValue::Object(vec![
        ("a".to_string(), JsonValue::Bool(true)),
        ("b".to_string(), JsonValue::Null),
    ]);
    assert!(DynamicValueImpl::from_serde_value(ok).is_some());
    let unsorted = JsonValue::Object(vec![
        ("b".to_string(), JsonValue::Null),
        ("a".to_string(), JsonValue::Null),
    ]);
    assert!(DynamicValueImpl::from_serde_value(unsorted).is_none());
    let bad_number = JsonValue::Number(JsonNumber::NegInt(3));
    assert!(DynamicValueImpl::from_serde_value(bad_number).is_none());
}

#[test]
fn json_to_dynamic_converter() {
    let c = JsonToDynamicValueConverter;
    let ok = c.convert(Ok(JsonValue::Str("x".to_string()))).unwrap();
    assert_eq!(ok.as_str(), Some("x".to_string()));
    assert_eq!(c.convert(Err("EOF while parsing".to_string())).err().unwrap(), "EOF while parsing");
    let bad = JsonValue::Number(JsonNumber::Float(f64::NAN.to_bits()));
    assert_eq!(c.convert(Ok(bad)).err().unwrap(), "Valor JSON mal formado");
}

use model_manager::dynamic_value::SerdeDynamicValue;
use model_manager::errors::ModelError;
use model_manager::hashing::HashStep;
use model_manager::number::JsonNumber;
use model_manager::traits::{CoreValue, PathNavigation, ValueAnalysis, ValueIntrospection};
use model_manager::value::JsonValue;

fn s(t: &str) -> SerdeDynamicValue {
    SerdeDynamicValue::from_str(t)
}

fn message(e: ModelError) -> String {
    match e {
        ModelError::InvalidData(m) => m,
        other => panic!("expected an invalid-data error, got {:?}", other),
    }
}

#[test]
fn serde_dynamic_paths_refuse_array_notation() {
    let mut root = SerdeDynamicValue::new_object();
    assert_eq!(
        message(root.set_by_path("items[0].name", s("x")).err().unwrap()),
        "Invalid path 'items[0].name': array notation not supported in paths"
    );
    root.set_by_path("items.name", s("x")).unwrap();
    assert_eq!(root.get_by_path("items.name").unwrap().unwrap().as_str(), Some("x".to_string()));
    assert!(root.has_path("items").unwrap());
}

#[test]
fn serde_dynamic_basic_operations() {
    let mut o = SerdeDynamicValue::new_object();
    o.set("b", s("2")).unwrap();
    o.set("a", s("1")).unwrap();
    assert_eq!(o.get_property_names().unwrap(), vec!["a", "b"]);
    assert_eq!(o.count_properties().unwrap(), 2);
    assert_eq!(o.get_property_type("a").unwrap(), Some("String".to_string()));
    assert!(o.equals(&o.deep_clone().unwrap()).unwrap());
    let removed = o.remove_key("a").unwrap().unwrap();
    assert_eq!(removed.as_str(), Some("1".to_string()));
    assert_eq!(message(s("x").set("k", s("v")).err().unwrap()), "Cannot set key on non-object value");
}

#[test]
fn serde_dynamic_merge_concatenates_arrays() {
    let mut a = SerdeDynamicValue::new_array();
    a.push(s("x")).unwrap();
    let mut b = SerdeDynamicValue::new_array();
    b.push(s("y")).unwrap();
    a.merge(&b).unwrap();
    let items = a.as_array().unwrap().unwrap();
    assert_eq!(items.len(), 2);
    assert_eq!(items[1].as_str(), Some("y".to_string()));
}

#[test]
fn serde_dynamic_path_helpers() {
    assert_eq!(SerdeDynamicValue::get_path_parts("a.b"), vec!["a", "b"]);
    assert!(SerdeDynamicValue::get_path_parts("").is_empty());
    assert!(SerdeDynamicValue::is_valid_path("a.b"));
    assert!(!SerdeDynamicValue::is_valid_path("a..b"));
    assert!(!SerdeDynamicValue::is_valid_path(""));
}

#[test]
fn serde_dynamic_value_round_trip() {
    let v = JsonValue::Object(vec![("k".to_string(), JsonValue::Number(JsonNumber::PosInt(7)))]);
    let d = SerdeDynamicValue::from_value(v).unwrap();
    assert_eq!(d.get("k").unwrap().unwrap().as_number(), Some(JsonNumber::PosInt(7)));
    match d.into_value() {
        JsonValue::Object(entries) => assert_eq!(entries[0].0, "k"),
        _ => panic!("expected an object"),
    }
    let dup = JsonValue::Object(vec![
        ("k".to_string(), JsonValue::Null),
        ("k".to_string(), JsonValue::Null),
    ]);
    assert!(SerdeDynamicValue::from_value(dup).is_none());
}

fn text_of(step: &HashStep) -> &str {
    match step {
        HashStep::Text(t) => t.as_str(),
        _ => panic!("expected text"),
    }
}

#[test]
fn hash_plan_of_scalars() {
    let p = SerdeDynamicValue::from_bool(true).hash_plan();
    assert_eq!(p.len(), 2);
    assert_eq!(text_of(&p[0]), "bool");
    assert!(matches!(p[1], HashStep::Flag(true)));

    let p = s("hi").hash_plan();
    assert_eq!(text_of(&p[0]), "string");
    assert_eq!(text_of(&p[1]), "hi");

    let n = SerdeDynamicValue::from_number_value(JsonNumber::NegInt(-3)).unwrap().hash_plan();
    assert_eq!(text_of(&n[0]), "number");
    assert!(matches!(n[1], HashStep::Number(JsonNumber::NegInt(-3))));

    let null = SerdeDynamicValue::from_value(JsonValue::Null).unwrap().hash_plan();
    assert_eq!(null.len(), 1);
    assert_eq!(text_of(&null[0]), "null");
}

#[test]
fn hash_plan_of_a_small_array_takes_every_item() {
    let mut a = SerdeDynamicValue::new_array();
    for i in 0..3 {
        a.push(SerdeDynamicValue::from_number_value(JsonNumber::PosInt(i)).unwrap()).unwrap();
    }
    let p = a.hash_plan();
    assert_eq!(text_of(&p[0]), "array");
    assert!(matches!(p[1], HashStep::Count(3)));
    assert_eq!(p.len(), 5);
    match &p[4] {
        HashStep::Item(sub) => assert!(matches!(sub[1], HashStep::Number(JsonNumber::PosInt(2)))),
        _ => panic!("expected an item"),
    }
}

#[test]
fn hash_plan_of_a_large_array_samples_five_items() {
    let mut a = SerdeDynamicValue::new_array();
    for i in 0..1001u64 {
        a.push(SerdeDynamicValue::from_number_value(JsonNumber::PosInt(i)).unwrap()).unwrap();
    }
    let p = a.hash_plan();
    assert!(matches!(p[1], HashStep::Count(1001)));
    assert_eq!(p.len(), 7);
    let picked: Vec<u64> = p[2..]
        .iter()
        .map(|step| match step {
            HashStep::Item(sub) => match sub[1] {
                HashStep::Number(JsonNumber::PosInt(n)) => n,
                _ => panic!("expected a number"),
            },
            _ => panic!("expected an item"),
        })
        .collect();
    assert_eq!(picked, vec![0, 250, 500, 750, 1000]);
}

#[test]
fn hash_plan_of_a_large_object_samples_twenty_entries() {
    let mut o = SerdeDynamicValue::new_object();
    for i in 0..120 {
        o.set(&format!("k{:03}", i), SerdeDynamicValue::from_bool(i % 2 == 0)).unwrap();
    }
    let p = o.hash_plan();
    assert_eq!(text_of(&p[0]), "object");
    assert!(matches!(p[1], HashStep::Count(120)));
    assert_eq!(p.len(), 22);
    let keys: Vec<String> = p[2..]
        .iter()
        .map(|step| match step {
            HashStep::Entry(k, _) => k.clone(),
            _ => panic!("expected an entry"),
        })
        .collect();
    assert_eq!(keys[0], "k000");
    assert_eq!(keys[1], "k006");
    assert_eq!(keys[19], "k114");
}

#[test]
fn hash_plan_of_a_small_object_keeps_key_order() {
    let mut o = SerdeDynamicValue::new_object();
    o.set("b", s("2")).unwrap();
    o.set("a", s("1")).unwrap();
    let p = o.hash_plan();
    assert_eq!(p.len(), 4);
    match (&p[2], &p[3]) {
        (HashStep::Entry(k1, v1), HashStep::Entry(k2, _)) => {
            assert_eq!(k1, "a");
            assert_eq!(k2, "b");
            assert_eq!(text_of(&v1[1]), "1");
        },
        _ => panic!("expected entries"),
    }
}

#[test]
fn equal_values_share_a_hash_plan() {
    let mut a = SerdeDynamicValue::new_object();
    a.set("x", s("1")).unwrap();
    a.set("y", SerdeDynamicValue::from_bool(true)).unwrap();
    let mut b = SerdeDynamicValue::new_object();
    b.set("y", SerdeDynamicValue::from_bool(true)).unwrap();
    b.set("x", s("1")).unwrap();
    assert!(a.equals(&b).unwrap());
    let pa = a.hash_plan();
    let pb = b.hash_plan();
    assert_eq!(pa.len(), pb.len());
    match (&pa[2], &pb[2]) {
        (HashStep::Entry(k1, _), HashStep::Entry(k2, _)) => assert_eq!(k1, k2),
        _ => panic!("expected entries"),
    }
}

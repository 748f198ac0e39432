use model_manager::core_value::SerdeCoreValue;
use model_manager::dynamic::{DynamicValue, DynamicValueImpl};
use model_manager::manager::{ModelManager, SimpleModelManager};
use model_manager::number::JsonNumber;
use model_manager::path::{is_valid_path, validate_path_for_setting};
use model_manager::traits::{CoreValue, PathNavigation, ValueAnalysis, ValueIntrospection};

fn s(t: &str) -> SerdeCoreValue {
    SerdeCoreValue::from_str(t)
}

fn sample() -> SerdeCoreValue {
    let mut o = SerdeCoreValue::new_object();
    o.set("a", s("1")).unwrap();
    o.set("b", SerdeCoreValue::from_number_value(JsonNumber::NegInt(-1)).unwrap()).unwrap();
    o.set_by_path("c.d", SerdeCoreValue::from_bool(false)).unwrap();
    o
}

#[test]
fn law_read_after_write_on_concrete_values() {
    let mut o = sample();
    let before_b = o.get("b").unwrap().unwrap();
    o.set("a", s("new")).unwrap();
    assert!(o.get("a").unwrap().unwrap().equals(&s("new")).unwrap());
    assert!(o.get("b").unwrap().unwrap().equals(&before_b).unwrap());
}

#[test]
fn law_read_after_remove_on_concrete_values() {
    let mut o = sample();
    let before_a = o.get("a").unwrap().unwrap();
    o.remove_key("b").unwrap();
    assert!(o.get("b").unwrap().is_none());
    assert!(o.get("a").unwrap().unwrap().equals(&before_a).unwrap());
}

#[test]
fn law_path_read_after_path_write_on_concrete_values() {
    let mut o = sample();
    o.set_by_path("c.d", s("deep")).unwrap();
    assert!(o.get_by_path("c.d").unwrap().unwrap().equals(&s("deep")).unwrap());
    o.set_by_path("..x..y..", s("spaced")).err().unwrap();
    o.set_by_path(" x.y ", s("spaced")).unwrap();
    assert!(o.get_by_path("x.y").unwrap().unwrap().equals(&s("spaced")).unwrap());
}

#[test]
fn law_every_value_equals_itself_on_concrete_values() {
    let o = sample();
    assert!(o.equals(&o).unwrap());
    let zero = SerdeCoreValue::from_number(0.0f64.to_bits()).unwrap();
    assert!(zero.equals(&zero).unwrap());
}

#[test]
fn law_merge_keeps_keys_on_concrete_values() {
    let mut a = sample();
    let mut b = SerdeCoreValue::new_object();
    b.set("z", s("zz")).unwrap();
    b.set("a", SerdeCoreValue::from_bool(true)).unwrap();
    a.merge(&b).unwrap();
    for k in ["a", "b", "c", "z"] {
        assert!(a.has_property(k).unwrap(), "missing {}", k);
    }
}

#[test]
fn law_merge_with_empty_object_and_replacement_on_concrete_values() {
    let mut a = sample();
    a.merge(&SerdeCoreValue::new_object()).unwrap();
    assert!(a.equals(&sample()).unwrap());
    let mut t = s("text");
    t.merge(&SerdeCoreValue::new_array()).unwrap();
    assert!(t.equals(&SerdeCoreValue::new_array()).unwrap());
}

#[test]
fn law_record_read_after_write_and_remove_on_concrete_values() {
    let mut m = SimpleModelManager::new();
    m.insert("users", Some("u1"), s("one")).unwrap();
    m.insert("teams", Some("u1"), s("team")).unwrap();
    m.insert("users", Some("u2"), s("two")).unwrap();
    assert!(m.get("users", "u2").unwrap().equals(&s("two")).unwrap());
    assert!(m.get("users", "u1").unwrap().equals(&s("one")).unwrap());
    m.remove("users", "u1").unwrap();
    assert!(m.get("users", "u1").is_err());
    assert!(m.get("teams", "u1").unwrap().equals(&s("team")).unwrap());
    assert!(m.get("users", "u2").unwrap().equals(&s("two")).unwrap());
}

#[test]
fn law_remove_undoes_insert_on_concrete_values() {
    let mut m = SimpleModelManager::new();
    m.insert("users", Some("u1"), s("one")).unwrap();
    let before: Vec<SerdeCoreValue> = m.get_all("users").unwrap();
    m.insert("users", Some("fresh"), s("new")).unwrap();
    m.remove("users", "fresh").unwrap();
    let after = m.get_all("users").unwrap();
    assert_eq!(after.len(), before.len());
    assert!(after[0].equals(&before[0]).unwrap());
}

#[test]
fn law_remove_key_undoes_set_key_on_concrete_values() {
    let before = sample();
    let mut o = sample();
    o.set("zz", s("temp")).unwrap();
    o.remove_key("zz").unwrap();
    assert!(o.equals(&before).unwrap());
    assert_eq!(o.get_property_names().unwrap(), before.get_property_names().unwrap());
}

#[test]
fn law_equality_is_symmetric_and_transitive_on_concrete_values() {
    let a = SerdeCoreValue::from_number(0.0f64.to_bits()).unwrap();
    let b = SerdeCoreValue::from_number((-0.0f64).to_bits()).unwrap();
    let c = SerdeCoreValue::from_number(0.0f64.to_bits()).unwrap();
    assert!(a.equals(&b).unwrap() && b.equals(&a).unwrap());
    assert!(b.equals(&c).unwrap() && a.equals(&c).unwrap());
    let mut x = SerdeCoreValue::new_object();
    x.set("k", a).unwrap();
    let mut y = SerdeCoreValue::new_object();
    y.set("k", b).unwrap();
    assert!(x.equals(&y).unwrap() && y.equals(&x).unwrap());
}

#[test]
fn law_merge_reads_per_key_on_concrete_values() {
    let mut a = SerdeCoreValue::new_object();
    a.set("only_a", s("a")).unwrap();
    a.set("both", s("old")).unwrap();
    let mut b = SerdeCoreValue::new_object();
    b.set("both", s("new")).unwrap();
    b.set("only_b", s("b")).unwrap();
    a.merge(&b).unwrap();
    assert!(a.get("only_a").unwrap().unwrap().equals(&s("a")).unwrap());
    assert!(a.get("both").unwrap().unwrap().equals(&s("new")).unwrap());
    assert!(a.get("only_b").unwrap().unwrap().equals(&s("b")).unwrap());
}

#[test]
fn law_valid_paths_are_exactly_the_settable_ones_on_concrete_values() {
    for p in ["", "a", "a.b", "a..b", ".a", "a.", "x[0].y"] {
        assert_eq!(is_valid_path(p), validate_path_for_setting(p).is_ok(), "path {:?}", p);
    }
}

#[test]
fn law_record_ids_stay_distinct_on_concrete_values() {
    let mut m = SimpleModelManager::new();
    m.insert("users", Some("u1"), s("a")).unwrap();
    m.insert("users", Some("u1"), s("b")).unwrap();
    m.insert("users", None, s("c")).unwrap();
    m.insert("teams", Some("u1"), s("t")).unwrap();
    assert!(m.ids_distinct());
    assert_eq!(m.count("users").unwrap(), 2);
}

#[test]
fn law_counts_after_put_and_remove_on_concrete_values() {
    let mut m = SimpleModelManager::new();
    m.insert("users", Some("u1"), s("a")).unwrap();
    m.insert("users", Some("u2"), s("b")).unwrap();
    assert_eq!(m.count("users").unwrap(), 2);
    m.insert("users", Some("u2"), s("c")).unwrap();
    assert_eq!(m.count("users").unwrap(), 2);
    m.remove("users", "u1").unwrap();
    assert_eq!(m.count("users").unwrap(), 1);
    assert!(!m.record_exists("users", "u1").unwrap());
}

#[test]
fn law_path_write_keeps_deeper_siblings_on_concrete_values() {
    let mut o = SerdeCoreValue::new_object();
    o.set_by_path("a.b.keep", s("k")).unwrap();
    o.set_by_path("a.other", s("o")).unwrap();
    o.set_by_path("a.b.c", s("new")).unwrap();
    assert!(o.get_by_path("a.b.keep").unwrap().unwrap().equals(&s("k")).unwrap());
    assert!(o.get_by_path("a.other").unwrap().unwrap().equals(&s("o")).unwrap());
    assert!(o.get_by_path("a.b.c").unwrap().unwrap().equals(&s("new")).unwrap());
}

#[test]
fn law_failed_dynamic_path_write_changes_nothing_on_concrete_values() {
    let mut v = DynamicValueImpl::new_object();
    v.set("a", DynamicValueImpl::from_str("scalar")).unwrap();
    v.set("z", DynamicValueImpl::from_bool(true)).unwrap();
    let before = v.deep_clone();
    assert!(v.set_by_path("a.b", DynamicValueImpl::from_str("x")).is_err());
    assert_eq!(v.keys(), before.keys());
    assert_eq!(v.get("a").unwrap().as_str(), Some("scalar".to_string()));
    assert_eq!(v.get("z").unwrap().as_bool(), Some(true));
}

#[test]
fn law_joined_path_round_trip_on_concrete_values() {
    let parts = ["user", "address", "city"];
    let joined = parts.join(".");
    assert_eq!(model_manager::path::parse_path(&joined), parts.to_vec());
    let mut o = SerdeCoreValue::new_object();
    o.set_by_path(&joined, s("Lima")).unwrap();
    assert!(o.get_by_path(&joined).unwrap().unwrap().equals(&s("Lima")).unwrap());
}

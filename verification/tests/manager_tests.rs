use model_manager::core_value::SerdeCoreValue;
use model_manager::errors::ModelError;
use model_manager::factories::{DefaultModelManagerFactory, ModelManagerFactory};
use model_manager::manager::{ModelIterator, ModelManager, SimpleModelManager};
use model_manager::number::JsonNumber;
use model_manager::store::RecordStore;
use model_manager::traits::{CoreValue, PathNavigation};

fn user(name: &str, city: Option<&str>) -> SerdeCoreValue {
    let mut u = SerdeCoreValue::new_object();
    u.set("name", SerdeCoreValue::from_str(name)).unwrap();
    if let Some(c) = city {
        u.set_by_path("address.city", SerdeCoreValue::from_str(c)).unwrap();
    }
    u
}

fn name_of(v: &SerdeCoreValue) -> String {
    v.get("name").unwrap().unwrap().as_str().unwrap()
}

fn not_found_id(e: ModelError) -> String {
    match e {
        ModelError::NotFound(id) => id,
        other => panic!("expected not found, got {:?}", other),
    }
}

#[test]
fn manager_insert_then_get() {
    let mut m = SimpleModelManager::new();
    let stored = m.insert("users", Some("u1"), user("Ana", Some("Lima"))).unwrap();
    assert_eq!(name_of(&stored), "Ana");
    assert_eq!(name_of(&m.get("users", "u1").unwrap()), "Ana");
    assert!(m.record_exists("users", "u1").unwrap());
    assert!(!m.record_exists("users", "u2").unwrap());
    assert!(!m.record_exists("other", "u1").unwrap());
    assert_eq!(m.count("users").unwrap(), 1);
    assert_eq!(m.count("other").unwrap(), 0);
}

#[test]
fn manager_insert_without_id_uses_a_fresh_uuid() {
    let mut store = RecordStore::new();
    store.insert(None, user("Ana", None)).unwrap();
    assert_eq!(store.count(), 1);
    let mut m = SimpleModelManager::new();
    m.insert("users", None, user("Ana", None)).unwrap();
    m.insert("users", None, user("Eva", None)).unwrap();
    assert_eq!(m.count("users").unwrap(), 2);
    let all = m.get_all("users").unwrap();
    assert_eq!(all.len(), 2);
    let mut ids = Vec::new();
    let mut it = m.iter_all("users").unwrap();
    while let Some(Ok(v)) = it.next() {
        ids.push(name_of(&v));
    }
    assert_eq!(ids, vec!["Ana", "Eva"]);
}

#[test]
fn inserts_without_ids_never_collide() {
    let mut s = RecordStore::new();
    for i in 0..20 {
        s.insert(None, user(&format!("n{}", i), None)).unwrap();
    }
    assert_eq!(s.count(), 20);
    assert!(s.ids_distinct());
}

#[test]
fn manager_insert_with_an_existing_id_replaces() {
    let mut m = SimpleModelManager::new();
    m.insert("users", Some("u1"), user("Ana", None)).unwrap();
    m.insert("users", Some("u1"), user("Eva", None)).unwrap();
    assert_eq!(m.count("users").unwrap(), 1);
    assert_eq!(name_of(&m.get("users", "u1").unwrap()), "Eva");
}

#[test]
fn manager_update() {
    let mut m = SimpleModelManager::new();
    m.insert("users", Some("u1"), user("Ana", None)).unwrap();
    let updated = m.update("users", "u1", user("Ana Maria", None)).unwrap();
    assert_eq!(name_of(&updated), "Ana Maria");
    assert_eq!(name_of(&m.get("users", "u1").unwrap()), "Ana Maria");
    assert_eq!(not_found_id(m.update("users", "zz", user("X", None)).err().unwrap()), "zz");
    assert_eq!(not_found_id(m.update("nomodel", "u1", user("X", None)).err().unwrap()), "u1");
    assert_eq!(m.count("users").unwrap(), 1);
    assert_eq!(m.count("nomodel").unwrap(), 0);
}

#[test]
fn manager_remove() {
    let mut m = SimpleModelManager::new();
    m.insert("users", Some("u1"), user("Ana", None)).unwrap();
    m.insert("users", Some("u2"), user("Eva", None)).unwrap();
    let removed = m.remove("users", "u1").unwrap();
    assert_eq!(name_of(&removed), "Ana");
    assert_eq!(not_found_id(m.get("users", "u1").err().unwrap()), "u1");
    assert_eq!(not_found_id(m.remove("users", "u1").err().unwrap()), "u1");
    assert_eq!(not_found_id(m.remove("ghosts", "u1").err().unwrap()), "u1");
    assert_eq!(m.count("users").unwrap(), 1);
}

#[test]
fn manager_get_of_missing_model_or_record() {
    let m = SimpleModelManager::new();
    assert_eq!(not_found_id(m.get("users", "u9").err().unwrap()), "u9");
    assert!(m.get_all("users").unwrap().is_empty());
    assert_eq!(m.iter_all("users").unwrap().len(), 0);
}

#[test]
fn manager_get_by_path() {
    let mut m = SimpleModelManager::new();
    m.insert("users", Some("u1"), user("Ana", Some("Lima"))).unwrap();
    let city = m.get_by_path("users", "u1", "address.city").unwrap().unwrap();
    assert_eq!(city.as_str(), Some("Lima".to_string()));
    assert!(m.get_by_path("users", "u1", "address.zip").unwrap().is_none());
    assert_eq!(not_found_id(m.get_by_path("users", "nope", "name").err().unwrap()), "nope");
}

#[test]
fn manager_find_by_path() {
    let mut m = SimpleModelManager::new();
    m.insert("users", Some("u1"), user("Ana", Some("Lima"))).unwrap();
    m.insert("users", Some("u2"), user("Eva", None)).unwrap();
    m.insert("users", Some("u3"), user("Luis", Some("Quito"))).unwrap();
    let with_city: Vec<String> = m.find_by_path_exists("users", "address.city").unwrap().iter().map(name_of).collect();
    assert_eq!(with_city, vec!["Ana", "Luis"]);
    let in_quito: Vec<String> = m
        .find_by_path_value("users", "address.city", SerdeCoreValue::from_str("Quito"))
        .unwrap()
        .iter()
        .map(name_of)
        .collect();
    assert_eq!(in_quito, vec!["Luis"]);
    assert!(m.find_by_path_exists("none", "a").unwrap().is_empty());
    assert!(m.find_by_path_value("none", "a", SerdeCoreValue::from_str("x")).unwrap().is_empty());
}

#[test]
fn find_by_path_value_compares_numbers_as_json_does() {
    let mut m = SimpleModelManager::new();
    let mut a = SerdeCoreValue::new_object();
    a.set("n", SerdeCoreValue::from_number(0.0f64.to_bits()).unwrap()).unwrap();
    m.insert("nums", Some("a"), a).unwrap();
    let mut b = SerdeCoreValue::new_object();
    b.set("n", SerdeCoreValue::from_number_value(JsonNumber::PosInt(0)).unwrap()).unwrap();
    m.insert("nums", Some("b"), b).unwrap();
    let neg_zero = SerdeCoreValue::from_number((-0.0f64).to_bits()).unwrap();
    let hits = m.find_by_path_value("nums", "n", neg_zero).unwrap();
    assert_eq!(hits.len(), 1);
}

#[test]
fn store_find_by_path_same_needs_identical_values() {
    let mut s = RecordStore::new();
    let mut a = SerdeCoreValue::new_object();
    a.set("n", SerdeCoreValue::from_number(0.0f64.to_bits()).unwrap()).unwrap();
    s.put("a".to_string(), a);
    let zero = SerdeCoreValue::from_number(0.0f64.to_bits()).unwrap();
    let neg_zero = SerdeCoreValue::from_number((-0.0f64).to_bits()).unwrap();
    assert_eq!(s.find_by_path_same("n", &zero).len(), 1);
    assert_eq!(s.find_by_path_same("n", &neg_zero).len(), 0);
    assert_eq!(s.find_by_path_value("n", &neg_zero).len(), 1);
}

#[test]
fn store_keeps_arrival_order() {
    let mut s = RecordStore::new();
    s.put("b".to_string(), user("B", None));
    s.put("a".to_string(), user("A", None));
    s.put("b".to_string(), user("B2", None));
    let names: Vec<String> = s.get_all().iter().map(name_of).collect();
    assert_eq!(names, vec!["B2", "A"]);
    assert!(s.ids_distinct());
    assert_eq!(name_of(&s.remove("b").unwrap()), "B2");
    assert_eq!(s.count(), 1);
    assert!(s.record_exists("a"));
    assert!(!s.record_exists("b"));
}

#[test]
fn model_iterator_walks_copies() {
    let mut it = ModelIterator::new(vec![1, 2, 3]);
    assert_eq!(it.size_hint(), (3, Some(3)));
    assert_eq!(it.len(), 3);
    assert!(matches!(it.next(), Some(Ok(1))));
    assert_eq!(it.len(), 2);
    assert!(matches!(it.next(), Some(Ok(2))));
    assert!(matches!(it.next(), Some(Ok(3))));
    assert!(it.next().is_none());
    assert_eq!(it.size_hint(), (0, Some(0)));
}

#[test]
fn factory_creates_an_empty_manager() {
    let m = DefaultModelManagerFactory::create();
    assert_eq!(m.count("anything").unwrap(), 0);
}

use model_manager::dynamic::{DynamicValue, DynamicValueImpl};
use model_manager::model_actor::{missing_error, DynamicData, ModelActor};

fn s(t: &str) -> DynamicValueImpl {
    DynamicValueImpl::from_str(t)
}

#[test]
fn missing_record_message() {
    assert_eq!(missing_error("u7"), "Elemento con id 'u7' no encontrado");
}

#[test]
fn actor_insert_and_get() {
    let mut a = ModelActor::new_object();
    assert!(a.is_empty());
    let stored = a.handle_insert(Some("u1".to_string()), s("Ana")).unwrap();
    assert_eq!(stored.as_str(), Some("Ana".to_string()));
    assert_eq!(a.handle_get("u1".to_string()).unwrap().as_str(), Some("Ana".to_string()));
    assert!(!a.is_empty());
}

#[test]
fn actor_insert_without_id() {
    let mut a = ModelActor::new_object();
    a.handle_insert(None, s("one")).unwrap();
    a.handle_insert(None, s("two")).unwrap();
    let all = a.handle_get_all().unwrap();
    assert_eq!(all.len(), 2);
}

#[test]
fn actor_get_missing() {
    let a = ModelActor::new_object();
    assert_eq!(a.handle_get("x".to_string()).err().unwrap(), "Elemento con id 'x' no encontrado");
}

#[test]
fn actor_update_writes_even_new_ids() {
    let mut a = ModelActor::new_object();
    let v = a.handle_update("u1".to_string(), s("new")).unwrap();
    assert_eq!(v.as_str(), Some("new".to_string()));
    a.handle_update("u1".to_string(), s("newer")).unwrap();
    assert_eq!(a.get("u1").unwrap().as_str(), Some("newer".to_string()));
}

#[test]
fn actor_delete() {
    let mut a = ModelActor::new_object();
    a.handle_insert(Some("u1".to_string()), s("Ana")).unwrap();
    let gone = a.handle_delete("u1".to_string()).unwrap();
    assert_eq!(gone.as_str(), Some("Ana".to_string()));
    assert_eq!(a.handle_delete("u1".to_string()).err().unwrap(), "Elemento con id 'u1' no encontrado");
    assert!(a.is_empty());
}

#[test]
fn actor_over_a_non_object_refuses_writes() {
    let mut a = ModelActor::new(s("scalar"));
    assert!(a.insert("k", s("v")).is_err());
    assert!(a.remove("k").is_err());
    assert_eq!(
        a.handle_insert(Some("k".to_string()), s("v")).err().unwrap(),
        "Elemento con id 'k' no encontrado"
    );
    assert_eq!(
        a.handle_update("k".to_string(), s("v")).err().unwrap(),
        "Elemento con id 'k' no encontrado"
    );
    assert!(a.handle_get_all().unwrap().is_empty());
}

#[test]
fn actor_get_all_in_id_order() {
    let mut a = ModelActor::new_object();
    a.insert("b", s("2")).unwrap();
    a.insert("a", s("1")).unwrap();
    let all: Vec<String> = a.get_all().iter().map(|v| v.as_str().unwrap()).collect();
    assert_eq!(all, vec!["1", "2"]);
}

#[test]
fn dynamic_data_operations() {
    let mut d = DynamicData::new();
    assert!(d.is_empty());
    d.insert("x", s("1"));
    d.update("x", s("2"));
    assert_eq!(d.get("x").unwrap().as_str(), Some("2".to_string()));
    assert!(d.get("y").is_none());
    d.remove("x");
    d.remove("never");
    assert!(d.is_empty());
}

use std::cell::RefCell;

use model_manager::core_value::SerdeCoreValue;
use model_manager::dynamic_value::SerdeDynamicValue;
use model_manager::errors::ModelError;
use model_manager::iterators::{ArrayIterator, ObjectIterator, SerdeArrayIterator, SerdeObjectIterator};
use model_manager::traits::CoreValue;

fn words(ws: &[&str]) -> Vec<SerdeDynamicValue> {
    ws.iter().map(|w| SerdeDynamicValue::from_str(w)).collect()
}

fn texts(vs: &[SerdeDynamicValue]) -> Vec<String> {
    vs.iter().map(|v| v.as_str().unwrap()).collect()
}

#[test]
fn array_iterator_walks_in_order() {
    let mut it = SerdeArrayIterator::new(words(&["a", "b", "c"]));
    assert_eq!(it.size_hint(), (3, Some(3)));
    assert_eq!(it.next().unwrap().as_str(), Some("a".to_string()));
    assert_eq!(it.size_hint(), (2, Some(2)));
    assert_eq!(it.nth(1).unwrap().as_str(), Some("c".to_string()));
    assert!(it.next().is_none());
    assert_eq!(it.count(), 0);
}

#[test]
fn array_iterator_nth_past_the_end_exhausts() {
    let mut it = SerdeArrayIterator::new(words(&["a", "b"]));
    assert!(it.nth(5).is_none());
    assert!(it.next().is_none());
}

#[test]
fn array_iterator_count_and_collect() {
    let mut it = SerdeArrayIterator::new(words(&["a", "b", "c"]));
    it.next();
    assert_eq!(texts(&it.collect()), vec!["b", "c"]);
    let mut it2 = SerdeArrayIterator::new(words(&["a", "b", "c"]));
    assert_eq!(it2.count(), 3);
    assert_eq!(it2.size_hint(), (0, Some(0)));
    assert_eq!(texts(&it2.collect()), vec!["a", "b", "c"]);
    assert_eq!(it2.size_hint(), (0, Some(0)));
}

#[test]
fn count_leaves_the_items_to_be_walked() {
    let mut it = SerdeArrayIterator::new(words(&["a", "b"]));
    assert_eq!(it.count(), 2);
    assert_eq!(it.next().unwrap().as_str(), Some("a".to_string()));
    assert_eq!(it.size_hint(), (0, Some(0)));
    assert_eq!(it.count(), 1);
}

fn batches_of(ws: &[&str], size: usize) -> (usize, Vec<Vec<String>>) {
    let seen: RefCell<Vec<Vec<String>>> = RefCell::new(Vec::new());
    let mut it = SerdeArrayIterator::new(words(ws));
    let total = it.for_each_batch(size, |batch: Vec<SerdeDynamicValue>| seen.borrow_mut().push(texts(&batch)));
    assert!(it.next().is_none());
    assert_eq!(it.size_hint(), (0, Some(0)));
    let b = seen.borrow().clone();
    (total, b)
}

#[test]
fn batches_in_order_with_a_shorter_last_one() {
    let (total, b) = batches_of(&["1", "2", "3", "4", "5"], 2);
    assert_eq!(total, 5);
    assert_eq!(b, vec![vec!["1", "2"], vec!["3", "4"], vec!["5"]]);
}

#[test]
fn batches_that_divide_evenly() {
    let (total, b) = batches_of(&["1", "2", "3", "4"], 2);
    assert_eq!(total, 4);
    assert_eq!(b, vec![vec!["1", "2"], vec!["3", "4"]]);
}

#[test]
fn batch_size_zero_gives_one_batch() {
    let (total, b) = batches_of(&["1", "2", "3"], 0);
    assert_eq!(total, 3);
    assert_eq!(b, vec![vec!["1", "2", "3"]]);
}

#[test]
fn no_batches_when_nothing_is_left() {
    let (total, b) = batches_of(&[], 3);
    assert_eq!(total, 0);
    assert!(b.is_empty());
    let (total, b) = batches_of(&[], 0);
    assert_eq!(total, 0);
    assert!(b.is_empty());
}

#[test]
fn array_iterator_find_filter_map() {
    let mut it = SerdeArrayIterator::new(words(&["apple", "bean", "avocado"]));
    let found = it.find(|v: &SerdeDynamicValue| v.as_str().map_or(false, |s| s.starts_with('b')));
    assert_eq!(found.unwrap().as_str(), Some("bean".to_string()));
    assert_eq!(texts(&it.collect()), vec!["avocado"]);

    let mut it = SerdeArrayIterator::new(words(&["apple", "bean", "avocado"]));
    let kept = it.filter(|v: &SerdeDynamicValue| v.as_str().map_or(false, |s| s.starts_with('a')));
    assert_eq!(texts(&kept), vec!["apple", "avocado"]);

    let mut it = SerdeArrayIterator::new(words(&["apple", "bean"]));
    let lens = it.map(|v: SerdeDynamicValue| v.as_str().unwrap().len());
    assert_eq!(lens, vec![5, 4]);

    let mut it = SerdeArrayIterator::new(words(&["x"]));
    assert!(it.find(|_v: &SerdeDynamicValue| false).is_none());
    assert!(it.next().is_none());
}

#[test]
fn array_iterator_batches() {
    let seen: RefCell<Vec<usize>> = RefCell::new(Vec::new());
    let mut it = SerdeArrayIterator::new(words(&["a", "b", "c", "d", "e"]));
    let total = it.for_each_batch(2, |batch: Vec<SerdeDynamicValue>| seen.borrow_mut().push(batch.len()));
    assert_eq!(total, 5);
    assert_eq!(*seen.borrow(), vec![2, 2, 1]);
    assert!(it.next().is_none());
}

#[test]
fn object_iterator_sorts_and_dedups_keys() {
    let pairs = vec![
        ("b".to_string(), SerdeCoreValue::from_str("first b")),
        ("a".to_string(), SerdeCoreValue::from_str("a")),
        ("b".to_string(), SerdeCoreValue::from_str("second b")),
    ];
    let mut it = SerdeObjectIterator::new(pairs);
    assert_eq!(it.size_hint(), (2, Some(2)));
    let (k, v) = it.next().unwrap();
    assert_eq!(k, "a");
    assert_eq!(v.as_str(), Some("a".to_string()));
    let (k, v) = it.next().unwrap();
    assert_eq!(k, "b");
    assert_eq!(v.as_str(), Some("second b".to_string()));
    assert!(it.next().is_none());
}

fn sample_object() -> SerdeCoreValue {
    let mut o = SerdeCoreValue::new_object();
    o.set("x", SerdeCoreValue::from_str("1")).unwrap();
    o.set("y", SerdeCoreValue::from_str("2")).unwrap();
    o.set("z", SerdeCoreValue::from_str("3")).unwrap();
    o
}

#[test]
fn object_iterator_find_key_count_collect() {
    let mut it = sample_object().iter_object().unwrap();
    assert_eq!(it.find_key("y").unwrap().as_str(), Some("2".to_string()));
    let rest = it.collect();
    assert_eq!(rest.len(), 1);
    assert_eq!(rest[0].0, "z");

    let mut it = sample_object().iter_object().unwrap();
    assert!(it.find_key("nope").is_none());
    assert_eq!(it.count(), 0);

    let mut it = sample_object().iter_object().unwrap();
    assert_eq!(it.count(), 3);
    assert_eq!(it.size_hint(), (0, Some(0)));
    assert_eq!(it.next().unwrap().0, "x");
}

#[test]
fn object_iterator_filter_and_map() {
    let mut it = sample_object().iter_object().unwrap();
    let kept = it.filter(|k: &str, _v: &SerdeCoreValue| k != "y");
    let keys: Vec<String> = kept.into_iter().map(|(k, _)| k).collect();
    assert_eq!(keys, vec!["x", "z"]);

    let mut it = sample_object().iter_object().unwrap();
    let mapped = it.map(|k: String, v: SerdeCoreValue| format!("{}={}", k, v.as_str().unwrap()));
    let texts: Vec<String> = mapped.into_iter().map(|(_, t)| t).collect();
    assert_eq!(texts, vec!["x=1", "y=2", "z=3"]);
}

#[test]
fn iterators_over_the_wrong_kind_are_refused() {
    match SerdeCoreValue::from_str("s").iter_object() {
        Err(ModelError::InvalidData(m)) => assert_eq!(m, "Value is not an object"),
        _ => panic!("expected an error"),
    }
    match sample_object().iter_array() {
        Err(ModelError::InvalidData(m)) => assert_eq!(m, "Value is not an array"),
        _ => panic!("expected an error"),
    }
    let mut arr = SerdeDynamicValue::new_array();
    arr.push(SerdeDynamicValue::from_str("q")).unwrap();
    let mut it = arr.iter_array().unwrap();
    assert_eq!(it.next().unwrap().as_str(), Some("q".to_string()));
    assert!(SerdeDynamicValue::new_array().iter_object().is_err());
}

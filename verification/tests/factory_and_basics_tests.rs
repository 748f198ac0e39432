use model_manager::dynamic_value::SerdeDynamicValue;
use model_manager::errors::ModelError;
use model_manager::factories::{
    ArrayIteratorFactory, DefaultAsyncArrayIteratorFactory, DefaultIteratorFactory,
    DefaultObjectIteratorFactory, DefaultValueFactory, IteratorFactory, ObjectIteratorFactory,
    ValueFactory,
};
use model_manager::iterators::{ArrayIterator, ObjectIterator};
use model_manager::number::{is_finite_bits, is_nan_bits, is_negative_bits, is_zero_bits, JsonNumber};
use model_manager::text::{compare_text, decimal_text, has_char, split_text, trim_text, TextOrder};
use model_manager::traits::CoreValue;

#[test]
fn value_factory_builds_each_kind() {
    assert!(DefaultValueFactory::create_object().is_object());
    assert!(DefaultValueFactory::create_array().is_array());
    assert_eq!(DefaultValueFactory::create_string("s").as_str(), Some("s".to_string()));
    assert_eq!(DefaultValueFactory::create_bool(true).as_bool(), Some(true));
    let n = DefaultValueFactory::create_number(4.25f64.to_bits()).unwrap();
    assert_eq!(n.as_number(), Some(JsonNumber::Float(4.25f64.to_bits())));
}

#[test]
fn value_factory_refuses_nan_with_the_error_text() {
    match DefaultValueFactory::create_number(f64::NAN.to_bits()) {
        Err(m) => assert_eq!(m, "Invalid data: Non-finite number: NaN"),
        Ok(_) => panic!("NaN must be refused"),
    }
}

#[test]
fn iterator_factories() {
    let mut o = SerdeDynamicValue::new_object();
    o.set("k", SerdeDynamicValue::from_bool(true)).unwrap();
    let mut it = DefaultObjectIteratorFactory::create_object_iterator(o).unwrap();
    assert_eq!(it.next().unwrap().0, "k");

    let mut a = SerdeDynamicValue::new_array();
    a.push(SerdeDynamicValue::from_str("x")).unwrap();
    let mut it = DefaultAsyncArrayIteratorFactory::create_array_iterator(a).unwrap();
    assert_eq!(it.count(), 1);

    match DefaultIteratorFactory::create_object_iterator(SerdeDynamicValue::new_array()) {
        Err(m) => assert_eq!(m, "Invalid data: Value is not an object"),
        Ok(_) => panic!("an array has no entries"),
    }
    match <DefaultIteratorFactory as IteratorFactory<SerdeDynamicValue>>::create_array_iterator(
        SerdeDynamicValue::new_object(),
    ) {
        Err(m) => assert_eq!(m, "Invalid data: Value is not an array"),
        Ok(_) => panic!("an object has no items"),
    }
}

#[test]
fn error_texts() {
    assert_eq!(ModelError::not_found("u1").to_string(), "Record not found: u1");
    assert_eq!(ModelError::invalid_data("bad").to_string(), "Invalid data: bad");
    assert_eq!(ModelError::SystemError("x".to_string()).to_string(), "System error: x");
    assert_eq!(ModelError::ActorError("y".to_string()).to_string(), "Actor error: y");
}

#[test]
fn float_bit_tests() {
    assert!(is_finite_bits(1.0f64.to_bits()));
    assert!(!is_finite_bits(f64::INFINITY.to_bits()));
    assert!(is_nan_bits(f64::NAN.to_bits()));
    assert!(!is_nan_bits(f64::INFINITY.to_bits()));
    assert!(is_zero_bits((-0.0f64).to_bits()));
    assert!(!is_zero_bits(f64::MIN_POSITIVE.to_bits()));
    assert!(is_negative_bits((-2.0f64).to_bits()));
    assert!(!is_negative_bits(2.0f64.to_bits()));
}

#[test]
fn number_constructors_and_equality() {
    assert_eq!(JsonNumber::from_u64(5), JsonNumber::PosInt(5));
    assert_eq!(JsonNumber::from_i64(5), JsonNumber::PosInt(5));
    assert_eq!(JsonNumber::from_i64(-5), JsonNumber::NegInt(-5));
    assert_eq!(JsonNumber::from_float_bits(f64::NAN.to_bits()), None);
    assert!(JsonNumber::Float(0.0f64.to_bits()).equals(&JsonNumber::Float((-0.0f64).to_bits())));
    assert!(!JsonNumber::PosInt(1).equals(&JsonNumber::Float(1.0f64.to_bits())));
    assert!(JsonNumber::NegInt(-2).equals(&JsonNumber::NegInt(-2)));
}

#[test]
fn text_helpers() {
    assert_eq!(compare_text("a", "b"), TextOrder::Less);
    assert_eq!(compare_text("b", "a"), TextOrder::Greater);
    assert_eq!(compare_text("ab", "ab"), TextOrder::Equal);
    assert_eq!(compare_text("a", "ab"), TextOrder::Less);
    assert_eq!(compare_text("Z", "a"), TextOrder::Less);
    assert_eq!(compare_text("é", "z"), TextOrder::Greater);
    assert_eq!(decimal_text(0), "0");
    assert_eq!(decimal_text(10485760), "10485760");
    assert!(has_char("a[0]", '['));
    assert!(!has_char("abc", ']'));
    assert_eq!(split_text("a,b,,c", ','), vec!["a", "b", "", "c"]);
    assert_eq!(trim_text("\u{3000} x y \u{a0}"), "x y");
}

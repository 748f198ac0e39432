use vstd::prelude::*;
use crate::converter::{JsonConverterConfig, SerdeJsonConverter};
use crate::core_value::{SerdeCoreValue, non_finite_message};
use crate::dynamic_value::{SerdeDynamicValue, dynamic_views};
use crate::errors::ModelErrorView;
use crate::iterators::{SerdeArrayIterator, SerdeObjectIterator, ArrayIterator, ObjectIterator, pair_views};
use crate::manager::SimpleModelManager;
use crate::number::{JsonNumber, float_bits_finite};
use crate::traits::CoreValue;
use crate::value::JsonView;

verus! {

/// Makes JSON converters.
pub trait ConverterFactory {
    type JsonConverter;

    fn create_json_converter() -> Self::JsonConverter;

    fn create_json_converter_with_config(config: JsonConverterConfig) -> Self::JsonConverter;
}

/// Makes the default JSON converter.
pub struct DefaultConverterFactory;

impl ConverterFactory for DefaultConverterFactory {
    type JsonConverter = SerdeJsonConverter;

    fn create_json_converter() -> (r: SerdeJsonConverter)
        ensures
            r.settings().base.max_direct_conversion_size == 10 * 1024 * 1024,
            !r.settings().base.pretty_output,
    {
        SerdeJsonConverter::new()
    }

    fn create_json_converter_with_config(config: JsonConverterConfig) -> (r: SerdeJsonConverter)
        ensures
            r.settings() == config,
    {
        SerdeJsonConverter::new_with_config(config)
    }
}

/// Makes an iterator over the entries of an object.
pub trait ObjectIteratorFactory<T> {
    type ObjectIterator;

    fn create_object_iterator(data: T) -> Result<Self::ObjectIterator, String>;
}

/// Makes an iterator over the items of an array.
pub trait ArrayIteratorFactory<T> {
    type ArrayIterator;

    fn create_array_iterator(data: T) -> Result<Self::ArrayIterator, String>;
}

/// Makes iterators over objects and arrays.
pub trait IteratorFactory<T> {
    type ObjectIterator;

    type ArrayIterator;

    fn create_object_iterator(data: T) -> Result<Self::ObjectIterator, String>;

    fn create_array_iterator(data: T) -> Result<Self::ArrayIterator, String>;
}

/// Makes object iterators over dynamic values.
pub struct DefaultObjectIteratorFactory;

/// Makes array iterators over dynamic values.
pub struct DefaultAsyncArrayIteratorFactory;

/// Makes both kinds of iterators over dynamic values.
pub struct DefaultIteratorFactory;

impl ObjectIteratorFactory<SerdeDynamicValue> for DefaultObjectIteratorFactory {
    type ObjectIterator = SerdeObjectIterator;

    fn create_object_iterator(data: SerdeDynamicValue) -> (r: Result<SerdeObjectIterator, String>)
        ensures
            data@.is_object() ==> (r matches Ok(it) && pair_views(it.pending()) == data@.entries()
                && it.reported() == it.pending().len()),
            !data@.is_object() ==> (r matches Err(m) && m@ == ModelErrorView::InvalidData(
                "Value is not an object"@,
            ).text()),
    {
        match data.iter_object() {
            Ok(it) => Ok(it),
            Err(e) => Err(e.to_string()),
        }
    }
}

impl ArrayIteratorFactory<SerdeDynamicValue> for DefaultAsyncArrayIteratorFactory {
    type ArrayIterator = SerdeArrayIterator;

    fn create_array_iterator(data: SerdeDynamicValue) -> (r: Result<SerdeArrayIterator, String>)
        ensures
            data@.is_array() ==> (r matches Ok(it) && dynamic_views(it.pending()) == data@.items()
                && it.reported() == it.pending().len()),
            !data@.is_array() ==> (r matches Err(m) && m@ == ModelErrorView::InvalidData(
                "Value is not an array"@,
            ).text()),
    {
        match data.iter_array() {
            Ok(it) => Ok(it),
            Err(e) => Err(e.to_string()),
        }
    }
}

impl IteratorFactory<SerdeDynamicValue> for DefaultIteratorFactory {
    type ObjectIterator = SerdeObjectIterator;

    type ArrayIterator = SerdeArrayIterator;

    fn create_object_iterator(data: SerdeDynamicValue) -> (r: Result<SerdeObjectIterator, String>)
        ensures
            data@.is_object() ==> (r matches Ok(it) && pair_views(it.pending()) == data@.entries()
                && it.reported() == it.pending().len()),
            !data@.is_object() ==> (r matches Err(m) && m@ == ModelErrorView::InvalidData(
                "Value is not an object"@,
            ).text()),
    {
        DefaultObjectIteratorFactory::create_object_iterator(data)
    }

    fn create_array_iterator(data: SerdeDynamicValue) -> (r: Result<SerdeArrayIterator, String>)
        ensures
            data@.is_array() ==> (r matches Ok(it) && dynamic_views(it.pending()) == data@.items()
                && it.reported() == it.pending().len()),
            !data@.is_array() ==> (r matches Err(m) && m@ == ModelErrorView::InvalidData(
                "Value is not an array"@,
            ).text()),
    {
        DefaultAsyncArrayIteratorFactory::create_array_iterator(data)
    }
}

/// Makes values.
pub trait ValueFactory {
    type Value;

    fn create_object() -> Self::Value;

    fn create_array() -> Self::Value;

    fn create_string(s: &str) -> Self::Value;

    fn create_number(bits: u64) -> Result<Self::Value, String>;

    fn create_bool(b: bool) -> Self::Value;
}

/// Makes one empty value of some kind.
pub trait DynamicValueFactory {
    type Value;

    fn create() -> Self::Value;
}

/// Makes values of the default kind.
pub struct DefaultValueFactory;

impl ValueFactory for DefaultValueFactory {
    type Value = SerdeCoreValue;

    fn create_object() -> (r: SerdeCoreValue)
        ensures
            r@ == JsonView::Object(Seq::empty()),
    {
        SerdeCoreValue::new_object()
    }

    fn create_array() -> (r: SerdeCoreValue)
        ensures
            r@ == JsonView::Array(Seq::empty()),
    {
        SerdeCoreValue::new_array()
    }

    fn create_string(s: &str) -> (r: SerdeCoreValue)
        ensures
            r@ == JsonView::Str(s@),
    {
        SerdeCoreValue::from_str(s)
    }

    fn create_number(bits: u64) -> (r: Result<SerdeCoreValue, String>)
        ensures
            float_bits_finite(bits) ==> (r matches Ok(v) && v@ == JsonView::Number(
                JsonNumber::Float(bits),
            )),
            !float_bits_finite(bits) ==> (r matches Err(m) && m@ == ModelErrorView::InvalidData(
                non_finite_message(bits),
            ).text()),
    {
        match SerdeCoreValue::from_number(bits) {
            Ok(v) => Ok(v),
            Err(e) => Err(e.to_string()),
        }
    }

    fn create_bool(b: bool) -> (r: SerdeCoreValue)
        ensures
            r@ == JsonView::Bool(b),
    {
        SerdeCoreValue::from_bool(b)
    }
}

/// Makes stores of models.
pub trait ModelManagerFactory {
    type Manager;

    fn create() -> Self::Manager;
}

/// Makes the store of models held in memory.
pub struct DefaultModelManagerFactory;

impl ModelManagerFactory for DefaultModelManagerFactory {
    type Manager = SimpleModelManager;

    fn create() -> (r: SimpleModelManager)
        ensures
            r@ == Seq::<(Seq<char>, Seq<(Seq<char>, JsonView)>)>::empty(),
    {
        SimpleModelManager::new()
    }
}

} // verus!

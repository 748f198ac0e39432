use vstd::prelude::*;
use crate::errors::ModelResult;
use crate::number::JsonNumber;

verus! {

/// The basic operations of a JSON value.  A number comes in and goes out as
/// a `JsonNumber`; a double is given by its IEEE-754 bit pattern.
pub trait CoreValue: Sized {
    fn new_object() -> Self;

    fn new_array() -> Self;

    fn from_str(s: &str) -> Self;

    fn from_number(bits: u64) -> ModelResult<Self>;

    fn from_bool(b: bool) -> Self;

    fn is_object(&self) -> bool;

    fn is_array(&self) -> bool;

    fn is_empty(&self) -> bool;

    fn get_type(&self) -> String;

    fn as_str(&self) -> Option<String>;

    fn as_number(&self) -> Option<JsonNumber>;

    fn as_bool(&self) -> Option<bool>;

    fn get(&self, key: &str) -> ModelResult<Option<Self>>;

    fn set(&mut self, key: &str, value: Self) -> ModelResult<()>;

    fn push(&mut self, value: Self) -> ModelResult<()>;

    fn as_array(&self) -> ModelResult<Option<Vec<Self>>>;
}

/// Reading and writing a value along a dotted path of object keys.
pub trait PathNavigation: Sized {
    fn get_by_path(&self, path: &str) -> ModelResult<Option<Self>>;

    fn has_path(&self, path: &str) -> ModelResult<bool>;

    fn set_by_path(&mut self, path: &str, value: Self) -> ModelResult<()>;
}

/// Questions about the properties of an object.
pub trait ValueIntrospection {
    fn has_property(&self, key: &str) -> ModelResult<bool>;

    fn get_property_type(&self, key: &str) -> ModelResult<Option<String>>;

    fn get_property_names(&self) -> ModelResult<Vec<String>>;

    fn count_properties(&self) -> ModelResult<usize>;
}

/// Copying, merging and comparing values.
pub trait ValueAnalysis: Sized {
    fn deep_clone(&self) -> ModelResult<Self>;

    fn merge(&mut self, other: &Self) -> ModelResult<()>;

    fn equals(&self, other: &Self) -> ModelResult<bool>;
}

/// A value with all of the operations above.
pub trait DynamicValue: CoreValue + PathNavigation + ValueIntrospection + ValueAnalysis {

}

} // verus!

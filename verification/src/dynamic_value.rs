use vstd::prelude::*;
use crate::analysis::{json_equiv, merge_deep, lemma_merge_deep_wf};
use crate::errors::{ModelError, ModelErrorView, ModelResult};
use crate::hashing::{HashStep, hash_plan, plan_of, view_steps};
use crate::navigation::{navigate, path_set, lemma_navigate_wf, lemma_path_set_wf};
use crate::number::{JsonNumber, float_bits_finite};
use crate::core_value::{non_finite_message, non_finite_error, set_by_path_outcome};
use crate::path::{
    path_check, path_segments, normalized_path, texts, parse_path, normalize_path,
    validate_path_for_setting_strict,
};
use crate::traits::{CoreValue, PathNavigation, ValueIntrospection, ValueAnalysis, DynamicValue};
use crate::value::{
    JsonValue, JsonView, obj_keys, view_entries, view_items, lemma_view_entries, lemma_view_items,
    lemma_get_key_wf, lemma_set_key_wf, lemma_push_wf, lemma_remove_key_wf, lemma_remove_at_wf,
};

verus! {

/// The views of a sequence of values.
pub open spec fn dynamic_views(v: Seq<SerdeDynamicValue>) -> Seq<JsonView> {
    v.map_values(|x: SerdeDynamicValue| x@)
}

/// A JSON value, always well-formed, whose path writes also refuse array
/// notation.
pub struct SerdeDynamicValue {
    inner: JsonValue,
}

impl View for SerdeDynamicValue {
    type V = JsonView;

    closed spec fn view(&self) -> JsonView {
        self.inner@
    }
}

impl SerdeDynamicValue {
    #[verifier::type_invariant]
    closed spec fn inv(self) -> bool {
        self.inner@.wf()
    }

    pub(crate) fn wrap(inner: JsonValue) -> (r: Self)
        requires
            inner@.wf(),
        ensures
            r@ == inner@,
    {
        SerdeDynamicValue { inner }
    }

    /// The JSON value held.
    pub fn json(&self) -> (r: &JsonValue)
        ensures
            r@ == self@,
            r@.wf(),
    {
        proof {
            use_type_invariant(self);
        }
        &self.inner
    }

    /// The segments of a dotted path; none for the empty path.
    pub fn get_path_parts(path: &str) -> (r: Vec<String>)
        ensures
            texts(r@) == path_segments(path@),
    {
        parse_path(path)
    }

    /// Whether the path is valid: not empty, and no segment empty.
    pub fn is_valid_path(path: &str) -> (r: bool)
        ensures
            r == crate::path::valid_path(path@),
    {
        crate::path::is_valid_path(path)
    }

    /// What the value's hash is computed from, and in which order: see
    /// `hash_plan`.  Arrays of more than a thousand items and objects of more
    /// than a hundred entries contribute only a sample of their content.
    pub fn hash_plan(&self) -> (r: Vec<HashStep>)
        ensures
            view_steps(r@) == hash_plan(self@),
    {
        plan_of(&self.inner)
    }

    /// The value holding this JSON value; `None` when the value is not well-formed (an
    /// object with keys out of order or repeated, or a malformed number).
    pub fn from_value(value: JsonValue) -> (r: Option<Self>)
        ensures
            (r is Some) == value@.wf(),
            r matches Some(v) ==> v@ == value@,
    {
        if value.is_well_formed() {
            Some(Self::wrap(value))
        } else {
            None
        }
    }

    /// The JSON value held, given up.
    pub fn into_value(self) -> (r: JsonValue)
        ensures
            r@ == self@,
            r@.wf(),
    {
        proof {
            use_type_invariant(&self);
        }
        self.inner
    }

    /// The value of a JSON number; an error for an integer kept in the wrong
    /// kind or a double that is not finite.
    pub fn from_number_value(n: JsonNumber) -> (r: ModelResult<Self>)
        ensures
            n.wf() ==> (r matches Ok(v) && v@ == JsonView::Number(n)),
            !n.wf() ==> (r matches Err(e) && e@ == ModelErrorView::InvalidData(
                "Invalid number"@,
            )),
    {
        match n {
            JsonNumber::NegInt(i) => if i >= 0 {
                return Err(ModelError::invalid_data("Invalid number"));
            },
            JsonNumber::Float(bits) => if !crate::number::is_finite_bits(bits) {
                return Err(ModelError::invalid_data("Invalid number"));
            },
            _ => {},
        }
        Ok(Self::wrap(JsonValue::Number(n)))
    }

    /// Takes the entry with `key` out of an object: the value it held, or
    /// `None` for a missing key.
    pub fn remove_key(&mut self, key: &str) -> (r: ModelResult<Option<Self>>)
        ensures
            old(self)@.is_object() ==> final(self)@ == old(self)@.remove_key(key@) && match r {
                Ok(Some(v)) => old(self)@.get_key(key@) == Some(v@),
                Ok(None) => old(self)@.get_key(key@) is None,
                Err(_) => false,
            },
            !old(self)@.is_object() ==> final(self)@ == old(self)@ && (r matches Err(e) && e@
                == ModelErrorView::InvalidData("Cannot remove key from non-object value"@)),
    {
        proof {
            use_type_invariant(&*self);
        }
        let mut inner = JsonValue::Null;
        std::mem::swap(&mut self.inner, &mut inner);
        let ghost before = inner@;
        let taken = inner.take_key(key);
        proof {
            lemma_remove_key_wf(before, key@);
        }
        self.inner = inner;
        match taken {
            Some(Some(v)) => {
                proof {
                    lemma_get_key_wf(before, key@);
                }
                Ok(Some(Self::wrap(v)))
            },
            Some(None) => Ok(None),
            None => Err(ModelError::invalid_data("Cannot remove key from non-object value")),
        }
    }

    /// Takes the item at `index` out of an array: the item, or `None` when the
    /// index is past the end.
    pub fn remove_at(&mut self, index: usize) -> (r: ModelResult<Option<Self>>)
        ensures
            old(self)@.is_array() && index < old(self)@.items().len() ==> final(self)@
                == JsonView::Array(old(self)@.items().remove(index as int)) && (r matches Ok(
                Some(v),
            ) && v@ == old(self)@.items()[index as int]),
            old(self)@.is_array() && index >= old(self)@.items().len() ==> final(self)@ == old(self)@ && (r matches Ok(None)),
            !old(self)@.is_array() ==> final(self)@ == old(self)@ && (r matches Err(e) && e@
                == ModelErrorView::InvalidData("Cannot remove index from non-array value"@)),
    {
        proof {
            use_type_invariant(&*self);
        }
        let mut inner = JsonValue::Null;
        std::mem::swap(&mut self.inner, &mut inner);
        let ghost before = inner@;
        let taken = inner.take_at(index);
        match taken {
            Some(Some(v)) => {
                proof {
                    lemma_remove_at_wf(before, index as int);
                }
                self.inner = inner;
                Ok(Some(Self::wrap(v)))
            },
            Some(None) => {
                self.inner = inner;
                Ok(None)
            },
            None => {
                self.inner = inner;
                Err(ModelError::invalid_data("Cannot remove index from non-array value"))
            },
        }
    }
}

impl Clone for SerdeDynamicValue {
    fn clone(&self) -> (r: Self)
        ensures
            r@ == self@,
    {
        proof {
            use_type_invariant(self);
        }
        Self::wrap(self.inner.clone())
    }
}

impl CoreValue for SerdeDynamicValue {
    fn new_object() -> (r: Self)
        ensures
            r@ == JsonView::Object(Seq::empty()),
    {
        Self::wrap(JsonValue::new_object())
    }

    fn new_array() -> (r: Self)
        ensures
            r@ == JsonView::Array(Seq::empty()),
    {
        Self::wrap(JsonValue::new_array())
    }

    fn from_str(s: &str) -> (r: Self)
        ensures
            r@ == JsonView::Str(s@),
    {
        Self::wrap(JsonValue::Str(String::from_str(s)))
    }

    fn from_number(bits: u64) -> (r: ModelResult<Self>)
        ensures
            float_bits_finite(bits) ==> (r matches Ok(v) && v@ == JsonView::Number(
                JsonNumber::Float(bits),
            )),
            !float_bits_finite(bits) ==> (r matches Err(e) && e@ == ModelErrorView::InvalidData(
                non_finite_message(bits),
            )),
    {
        match JsonNumber::from_float_bits(bits) {
            Some(n) => Ok(Self::wrap(JsonValue::Number(n))),
            None => Err(non_finite_error(bits)),
        }
    }

    fn from_bool(b: bool) -> (r: Self)
        ensures
            r@ == JsonView::Bool(b),
    {
        Self::wrap(JsonValue::Bool(b))
    }

    fn is_object(&self) -> (r: bool)
        ensures
            r == self@.is_object(),
    {
        self.inner.is_object()
    }

    fn is_array(&self) -> (r: bool)
        ensures
            r == self@.is_array(),
    {
        self.inner.is_array()
    }

    fn is_empty(&self) -> (r: bool)
        ensures
            r == self@.is_blank(),
    {
        self.inner.is_blank()
    }

    fn get_type(&self) -> (r: String)
        ensures
            r@ == self@.kind_name(),
    {
        self.inner.kind_name()
    }

    fn as_str(&self) -> (r: Option<String>)
        ensures
            match self@ {
                JsonView::Str(s) => r matches Some(x) && x@ == s,
                _ => r is None,
            },
    {
        match &self.inner {
            JsonValue::Str(s) => Some(s.clone()),
            _ => None,
        }
    }

    fn as_number(&self) -> (r: Option<JsonNumber>)
        ensures
            match self@ {
                JsonView::Number(n) => r == Some(n),
                _ => r is None,
            },
    {
        match &self.inner {
            JsonValue::Number(n) => Some(*n),
            _ => None,
        }
    }

    fn as_bool(&self) -> (r: Option<bool>)
        ensures
            match self@ {
                JsonView::Bool(b) => r == Some(b),
                _ => r is None,
            },
    {
        match &self.inner {
            JsonValue::Bool(b) => Some(*b),
            _ => None,
        }
    }

    fn get(&self, key: &str) -> (r: ModelResult<Option<Self>>)
        ensures
            match self@.get_key(key@) {
                Some(x) => r matches Ok(Some(v)) && v@ == x,
                None => r matches Ok(None),
            },
    {
        proof {
            use_type_invariant(self);
        }
        match self.inner.get_key(key) {
            Some(v) => {
                proof {
                    lemma_get_key_wf(self@, key@);
                }
                Ok(Some(Self::wrap(v)))
            },
            None => Ok(None),
        }
    }

    fn set(&mut self, key: &str, value: Self) -> (r: ModelResult<()>)
        ensures
            old(self)@.is_object() ==> r is Ok && final(self)@ == old(self)@.set_key(
                key@,
                value@,
            ),
            !old(self)@.is_object() ==> final(self)@ == old(self)@ && (r matches Err(e) && e@
                == ModelErrorView::InvalidData("Cannot set key on non-object value"@)),
    {
        proof {
            use_type_invariant(&*self);
            use_type_invariant(&value);
            lemma_set_key_wf(self@, key@, value@);
        }
        let mut inner = JsonValue::Null;
        std::mem::swap(&mut self.inner, &mut inner);
        let ok = inner.set_key(key, value.inner);
        self.inner = inner;
        if ok {
            Ok(())
        } else {
            Err(ModelError::invalid_data("Cannot set key on non-object value"))
        }
    }

    fn push(&mut self, value: Self) -> (r: ModelResult<()>)
        ensures
            old(self)@.is_array() ==> r is Ok && final(self)@ == JsonView::Array(
                old(self)@.items().push(value@),
            ),
            !old(self)@.is_array() ==> final(self)@ == old(self)@ && (r matches Err(e) && e@
                == ModelErrorView::InvalidData("Cannot push to non-array value"@)),
    {
        proof {
            use_type_invariant(&*self);
            use_type_invariant(&value);
            if self@.is_array() {
                lemma_push_wf(self@, value@);
            }
        }
        let mut inner = JsonValue::Null;
        std::mem::swap(&mut self.inner, &mut inner);
        let ok = inner.push_item(value.inner);
        self.inner = inner;
        if ok {
            Ok(())
        } else {
            Err(ModelError::invalid_data("Cannot push to non-array value"))
        }
    }

    fn as_array(&self) -> (r: ModelResult<Option<Vec<Self>>>)
        ensures
            self@.is_array() ==> (r matches Ok(Some(v)) && dynamic_views(v@) == self@.items()),
            !self@.is_array() ==> (r matches Ok(None)),
    {
        proof {
            use_type_invariant(self);
        }
        match self.inner.items_copy() {
            Some(items) => {
                let ghost ys = view_items(items@);
                proof {
                    lemma_view_items(items@);
                }
                let mut out: Vec<Self> = Vec::new();
                let mut i: usize = 0;
                let mut rest = items;
                let ghost all = rest@;
                let n = rest.len();
                while i < n
                    invariant
                        n == all.len(),
                        ys == self@.items(),
                        ys == view_items(all),
                        ys.len() == all.len(),
                        forall|j: int| 0 <= j < all.len() ==> #[trigger] ys[j] == all[j]@,
                        self@.wf(),
                        self@.is_array(),
                        i <= all.len(),
                        rest@ == all.skip(i as int),
                        out.len() == i,
                        forall|j: int| 0 <= j < i ==> (#[trigger] out@[j])@ == ys[j],
                    decreases all.len() - i,
                {
                    let item = rest.remove(0);
                    proof {
                        assert(item == all[i as int]);
                        assert(rest@ =~= all.skip(i + 1));
                        assert(ys[i as int].wf());
                    }
                    out.push(Self::wrap(item));
                    i = i + 1;
                }
                proof {
                    assert(dynamic_views(out@) =~= ys);
                }
                Ok(Some(out))
            },
            None => Ok(None),
        }
    }
}

impl PathNavigation for SerdeDynamicValue {
    fn get_by_path(&self, path: &str) -> (r: ModelResult<Option<Self>>)
        ensures
            match navigate(self@, path_segments(path@)) {
                Some(x) => r matches Ok(Some(v)) && v@ == x,
                None => r matches Ok(None),
            },
    {
        proof {
            use_type_invariant(self);
        }
        let parts = parse_path(path);
        proof {
            assert(texts(parts@).skip(0) =~= texts(parts@));
        }
        match self.inner.navigate_from(&parts, 0) {
            Some(v) => {
                proof {
                    lemma_navigate_wf(self@, path_segments(path@));
                }
                Ok(Some(Self::wrap(v)))
            },
            None => Ok(None),
        }
    }

    fn has_path(&self, path: &str) -> (r: ModelResult<bool>)
        ensures
            r matches Ok(b) && b == navigate(self@, path_segments(path@)) is Some,
    {
        match self.get_by_path(path) {
            Ok(Some(_)) => Ok(true),
            Ok(None) => Ok(false),
            Err(e) => Err(e),
        }
    }

    fn set_by_path(&mut self, path: &str, value: Self) -> (r: ModelResult<()>)
        ensures
            match set_by_path_outcome(old(self)@, path@, value@, true) {
                Ok(v) => r is Ok && final(self)@ == v,
                Err(e) => r matches Err(x) && x@ == e && final(self)@ == old(self)@,
            },
    {
        match validate_path_for_setting_strict(path) {
            Err(e) => {
                return Err(e);
            },
            Ok(()) => {},
        }
        let normalized = normalize_path(path);
        if normalized.as_str().is_empty() {
            return Err(ModelError::invalid_data("Path becomes empty after normalization"));
        }
        let parts = parse_path(normalized.as_str());
        if !self.inner.is_object() {
            return Err(ModelError::invalid_data("Cannot set path on non-object root value"));
        }
        proof {
            use_type_invariant(&*self);
            use_type_invariant(&value);
            assert(texts(parts@).skip(0) =~= texts(parts@));
            lemma_path_set_wf(self@, path_segments(normalized@), value@);
        }
        let mut inner = JsonValue::Null;
        std::mem::swap(&mut self.inner, &mut inner);
        inner.set_path_from(&parts, 0, value.inner);
        self.inner = inner;
        Ok(())
    }
}

impl ValueIntrospection for SerdeDynamicValue {
    fn has_property(&self, key: &str) -> (r: ModelResult<bool>)
        ensures
            self@.is_object() ==> (r matches Ok(b) && b == self@.get_key(key@) is Some),
            !self@.is_object() ==> (r matches Err(e) && e@ == ModelErrorView::InvalidData(
                "Cannot check property on non-object value"@,
            )),
    {
        match &self.inner {
            JsonValue::Object(entries) => Ok(crate::value::find_entry(entries, key).is_some()),
            _ => Err(ModelError::invalid_data("Cannot check property on non-object value")),
        }
    }

    fn get_property_type(&self, key: &str) -> (r: ModelResult<Option<String>>)
        ensures
            self@.is_object() ==> match self@.get_key(key@) {
                Some(x) => r matches Ok(Some(t)) && t@ == x.kind_name(),
                None => r matches Ok(None),
            },
            !self@.is_object() ==> (r matches Err(e) && e@ == ModelErrorView::InvalidData(
                "Cannot get property type on non-object value"@,
            )),
    {
        match &self.inner {
            JsonValue::Object(entries) => match crate::value::find_entry(entries, key) {
                Some(i) => Ok(Some(entries[i].1.kind_name())),
                None => Ok(None),
            },
            _ => Err(ModelError::invalid_data("Cannot get property type on non-object value")),
        }
    }

    fn get_property_names(&self) -> (r: ModelResult<Vec<String>>)
        ensures
            self@.is_object() ==> (r matches Ok(names) && texts(names@) == obj_keys(
                self@.entries(),
            )),
            !self@.is_object() ==> (r matches Err(e) && e@ == ModelErrorView::InvalidData(
                "Cannot get property names on non-object value"@,
            )),
    {
        match &self.inner {
            JsonValue::Object(entries) => {
                let mut names: Vec<String> = Vec::new();
                let mut i: usize = 0;
                proof {
                    lemma_view_entries(entries@);
                }
                while i < entries.len()
                    invariant
                        self@ == JsonView::Object(view_entries(entries@)),
                        view_entries(entries@).len() == entries.len(),
                        forall|j: int|
                            0 <= j < entries.len() ==> #[trigger] view_entries(entries@)[j] == (
                            entries@[j].0@, entries@[j].1@),
                        i <= entries.len(),
                        names.len() == i,
                        forall|j: int| 0 <= j < i ==> (#[trigger] names@[j])@ == entries@[j].0@,
                    decreases entries.len() - i,
                {
                    names.push(entries[i].0.clone());
                    i = i + 1;
                }
                proof {
                    assert(texts(names@) =~= obj_keys(self@.entries()));
                }
                Ok(names)
            },
            _ => Err(ModelError::invalid_data("Cannot get property names on non-object value")),
        }
    }

    fn count_properties(&self) -> (r: ModelResult<usize>)
        ensures
            self@.is_object() ==> (r matches Ok(n) && n == self@.entries().len()),
            !self@.is_object() ==> (r matches Err(e) && e@ == ModelErrorView::InvalidData(
                "Cannot count properties on non-object value"@,
            )),
    {
        match &self.inner {
            JsonValue::Object(entries) => {
                proof {
                    lemma_view_entries(entries@);
                }
                Ok(entries.len())
            },
            _ => Err(ModelError::invalid_data("Cannot count properties on non-object value")),
        }
    }
}

impl ValueAnalysis for SerdeDynamicValue {
    fn deep_clone(&self) -> (r: ModelResult<Self>)
        ensures
            r matches Ok(v) && v@ == self@,
    {
        Ok(self.clone())
    }

    fn merge(&mut self, other: &Self) -> (r: ModelResult<()>)
        ensures
            r is Ok,
            final(self)@ == merge_deep(old(self)@, other@),
    {
        proof {
            use_type_invariant(&*self);
            use_type_invariant(other);
            lemma_merge_deep_wf(self@, other@);
        }
        let mut inner = JsonValue::Null;
        std::mem::swap(&mut self.inner, &mut inner);
        inner.merge_deep(&other.inner);
        self.inner = inner;
        Ok(())
    }

    fn equals(&self, other: &Self) -> (r: ModelResult<bool>)
        ensures
            r matches Ok(b) && b == json_equiv(self@, other@),
    {
        Ok(self.inner.equivalent(&other.inner))
    }
}

impl DynamicValue for SerdeDynamicValue {

}

} // verus!

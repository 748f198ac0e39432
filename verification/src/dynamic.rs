use vstd::prelude::*;
use crate::analysis::{matches_schema, merge_objects, lemma_merge_objects_wf};
use crate::errors::{DynamicError, DynamicErrorView, DynamicResult};
use crate::navigation::{navigate, loose_path_set, lemma_navigate_wf, lemma_loose_path_set_wf};
use crate::number::{JsonNumber, float_bits_finite};
use crate::path::{texts, valid_path, is_valid_path, split_path};
use crate::text::split_on;
use crate::value::{
    JsonValue, JsonView, obj_keys, obj_values, view_entries, view_items, lemma_view_entries,
    lemma_view_items, lemma_get_key_wf, lemma_set_key_wf, lemma_push_wf, lemma_remove_key_wf,
};

verus! {

/// The operations of a dynamic JSON value whose errors are `DynamicError`s.
pub trait DynamicValue: Sized {
    fn new_object() -> Self;

    fn new_array() -> Self;

    fn from_str(s: &str) -> Self;

    fn from_number(bits: u64) -> DynamicResult<Self>;

    fn from_bool(b: bool) -> Self;

    fn is_object(&self) -> bool;

    fn is_array(&self) -> bool;

    fn as_str(&self) -> Option<String>;

    fn as_number(&self) -> Option<JsonNumber>;

    fn as_bool(&self) -> Option<bool>;

    fn as_map(&self) -> Option<Vec<(String, Self)>>;

    fn as_array(&self) -> Option<Vec<Self>>;

    fn get(&self, key: &str) -> Option<Self>;

    fn get_all(&self) -> Vec<Self>;

    fn set(&mut self, key: &str, value: Self) -> DynamicResult<()>;

    fn remove(&mut self, key: &str) -> DynamicResult<()>;

    fn push(&mut self, value: Self) -> DynamicResult<()>;

    fn is_empty(&self) -> bool;

    fn get_type(&self) -> String;

    fn iter_object(&self) -> Option<Vec<(String, Self)>>;

    fn iter_array(&self) -> Option<Vec<Self>>;

    fn get_by_path(&self, path: &str) -> DynamicResult<Option<Self>>;

    fn set_by_path(&mut self, path: &str, value: Self) -> DynamicResult<()>;

    fn deep_clone(&self) -> Self;

    fn merge(&mut self, other: &Self) -> DynamicResult<()>;

    fn keys(&self) -> Vec<String>;

    fn matches_schema(&self, schema: &Self) -> bool;

    fn is_valid_path(path: &str) -> bool;

    fn split_path(path: &str) -> Vec<String>;
}

/// The views of a sequence of values.
pub open spec fn impl_views(v: Seq<DynamicValueImpl>) -> Seq<JsonView> {
    v.map_values(|x: DynamicValueImpl| x@)
}

/// The keys and views of a sequence of keyed values.
pub open spec fn impl_entries(v: Seq<(String, DynamicValueImpl)>) -> Seq<(Seq<char>, JsonView)> {
    v.map_values(|p: (String, DynamicValueImpl)| (p.0@, p.1@))
}

/// The message for a path that is not valid.
pub open spec fn invalid_path_message(path: Seq<char>) -> Seq<char> {
    "Path inválido: '"@ + path + "'"@
}

/// A dynamic JSON value, always well-formed.  Each value owns its JSON
/// value: a clone is an independent copy, and a change made through one
/// value is never seen through another.  (Handles that share one value
/// behind a lock would need a `RwLock`, which Verus does not verify.)
pub struct DynamicValueImpl {
    inner: JsonValue,
}

impl View for DynamicValueImpl {
    type V = JsonView;

    closed spec fn view(&self) -> JsonView {
        self.inner@
    }
}

impl DynamicValueImpl {
    #[verifier::type_invariant]
    closed spec fn inv(self) -> bool {
        self.inner@.wf()
    }

    pub(crate) fn wrap(inner: JsonValue) -> (r: Self)
        requires
            inner@.wf(),
        ensures
            r@ == inner@,
    {
        DynamicValueImpl { inner }
    }

    /// The JSON value held.
    pub fn json(&self) -> (r: &JsonValue)
        ensures
            r@ == self@,
            r@.wf(),
    {
        proof {
            use_type_invariant(self);
        }
        &self.inner
    }

    /// The dynamic value holding this JSON value; `None` when the value is
    /// not well-formed (an object with keys out of order or repeated, or a
    /// malformed number).
    pub fn from_serde_value(value: JsonValue) -> (r: Option<Self>)
        ensures
            (r is Some) == value@.wf(),
            r matches Some(v) ==> v@ == value@,
    {
        if value.is_well_formed() {
            Some(Self::wrap(value))
        } else {
            None
        }
    }

    /// The value of a JSON number; `None` for an integer kept in the wrong
    /// kind or a double that is not finite.
    pub fn from_number_value(n: JsonNumber) -> (r: Option<Self>)
        ensures
            n.wf() ==> (r matches Some(v) && v@ == JsonView::Number(n)),
            !n.wf() ==> r is None,
    {
        match n {
            JsonNumber::NegInt(i) => if i >= 0 {
                return None;
            },
            JsonNumber::Float(bits) => if !crate::number::is_finite_bits(bits) {
                return None;
            },
            _ => {},
        }
        Some(Self::wrap(JsonValue::Number(n)))
    }

    fn wrap_entries(entries: Vec<(String, JsonValue)>) -> (r: Vec<(String, Self)>)
        requires
            forall|i: int| 0 <= i < entries.len() ==> (#[trigger] entries@[i]).1@.wf(),
        ensures
            impl_entries(r@) == view_entries(entries@),
    {
        proof {
            lemma_view_entries(entries@);
        }
        let ghost all = entries@;
        let n = entries.len();
        let mut rest = entries;
        let mut out: Vec<(String, Self)> = Vec::new();
        let mut i: usize = 0;
        while i < n
            invariant
                n == all.len(),
                forall|j: int| 0 <= j < all.len() ==> (#[trigger] all[j]).1@.wf(),
                view_entries(all).len() == all.len(),
                forall|j: int|
                    0 <= j < all.len() ==> #[trigger] view_entries(all)[j] == (all[j].0@, all[j].1@),
                i <= n,
                rest@ == all.skip(i as int),
                out.len() == i,
                forall|j: int| 0 <= j < i ==> (#[trigger] out@[j]).0@ == all[j].0@ && out@[j].1@ == all[j].1@,
            decreases n - i,
        {
            let (k, v) = rest.remove(0);
            proof {
                assert(all[i as int] == (k, v));
                assert(rest@ =~= all.skip(i + 1));
            }
            out.push((k, Self::wrap(v)));
            i = i + 1;
        }
        proof {
            assert(impl_entries(out@) =~= view_entries(all));
        }
        out
    }

    fn wrap_items(items: Vec<JsonValue>) -> (r: Vec<Self>)
        requires
            forall|i: int| 0 <= i < items.len() ==> (#[trigger] items@[i])@.wf(),
        ensures
            impl_views(r@) == view_items(items@),
    {
        proof {
            lemma_view_items(items@);
        }
        let ghost all = items@;
        let n = items.len();
        let mut rest = items;
        let mut out: Vec<Self> = Vec::new();
        let mut i: usize = 0;
        while i < n
            invariant
                n == all.len(),
                forall|j: int| 0 <= j < all.len() ==> (#[trigger] all[j])@.wf(),
                view_items(all).len() == all.len(),
                forall|j: int| 0 <= j < all.len() ==> #[trigger] view_items(all)[j] == all[j]@,
                i <= n,
                rest@ == all.skip(i as int),
                out.len() == i,
                forall|j: int| 0 <= j < i ==> (#[trigger] out@[j])@ == all[j]@,
            decreases n - i,
        {
            let v = rest.remove(0);
            proof {
                assert(all[i as int] == v);
                assert(rest@ =~= all.skip(i + 1));
            }
            out.push(Self::wrap(v));
            i = i + 1;
        }
        proof {
            assert(impl_views(out@) =~= view_items(all));
        }
        out
    }

    fn entries_of(&self) -> (r: Option<Vec<(String, Self)>>)
        ensures
            (r is Some) == self@.is_object(),
            r matches Some(v) ==> impl_entries(v@) == self@.entries(),
    {
        proof {
            use_type_invariant(self);
        }
        match self.inner.entries_copy() {
            Some(entries) => {
                proof {
                    lemma_view_entries(entries@);
                    assert forall|i: int| 0 <= i < entries.len() implies (
                    #[trigger] entries@[i]).1@.wf() by {
                        assert(view_entries(entries@)[i].1 == entries@[i].1@);
                    }
                }
                Some(Self::wrap_entries(entries))
            },
            None => None,
        }
    }

    fn items_of(&self) -> (r: Option<Vec<Self>>)
        ensures
            (r is Some) == self@.is_array(),
            r matches Some(v) ==> impl_views(v@) == self@.items(),
    {
        proof {
            use_type_invariant(self);
        }
        match self.inner.items_copy() {
            Some(items) => {
                proof {
                    lemma_view_items(items@);
                    assert forall|i: int| 0 <= i < items.len() implies (#[trigger] items@[i])@.wf() by {
                        assert(view_items(items@)[i] == items@[i]@);
                    }
                }
                Some(Self::wrap_items(items))
            },
            None => None,
        }
    }
}

impl Clone for DynamicValueImpl {
    /// An independent copy holding the same JSON value.
    fn clone(&self) -> (r: Self)
        ensures
            r@ == self@,
    {
        proof {
            use_type_invariant(self);
        }
        Self::wrap(self.inner.clone())
    }
}

impl DynamicValue for DynamicValueImpl {
    fn new_object() -> (r: Self)
        ensures
            r@ == JsonView::Object(Seq::empty()),
    {
        Self::wrap(JsonValue::new_object())
    }

    fn new_array() -> (r: Self)
        ensures
            r@ == JsonView::Array(Seq::empty()),
    {
        Self::wrap(JsonValue::new_array())
    }

    fn from_str(s: &str) -> (r: Self)
        ensures
            r@ == JsonView::Str(s@),
    {
        Self::wrap(JsonValue::Str(String::from_str(s)))
    }

    fn from_number(bits: u64) -> (r: DynamicResult<Self>)
        ensures
            float_bits_finite(bits) ==> (r matches Ok(v) && v@ == JsonView::Number(
                JsonNumber::Float(bits),
            )),
            !float_bits_finite(bits) ==> (r matches Err(e) && e@ == DynamicErrorView::InvalidNumber(
                "Número inválido (NaN o infinito)"@,
            )),
    {
        match JsonNumber::from_float_bits(bits) {
            Some(n) => Ok(Self::wrap(JsonValue::Number(n))),
            None => Err(DynamicError::InvalidNumber(String::from_str("Número inválido (NaN o infinito)"))),
        }
    }

    fn from_bool(b: bool) -> (r: Self)
        ensures
            r@ == JsonView::Bool(b),
    {
        Self::wrap(JsonValue::Bool(b))
    }

    fn is_object(&self) -> (r: bool)
        ensures
            r == self@.is_object(),
    {
        self.inner.is_object()
    }

    fn is_array(&self) -> (r: bool)
        ensures
            r == self@.is_array(),
    {
        self.inner.is_array()
    }

    fn as_str(&self) -> (r: Option<String>)
        ensures
            match self@ {
                JsonView::Str(s) => r matches Some(x) && x@ == s,
                _ => r is None,
            },
    {
        match &self.inner {
            JsonValue::Str(s) => Some(s.clone()),
            _ => None,
        }
    }

    fn as_number(&self) -> (r: Option<JsonNumber>)
        ensures
            match self@ {
                JsonView::Number(n) => r == Some(n),
                _ => r is None,
            },
    {
        match &self.inner {
            JsonValue::Number(n) => Some(*n),
            _ => None,
        }
    }

    fn as_bool(&self) -> (r: Option<bool>)
        ensures
            match self@ {
                JsonView::Bool(b) => r == Some(b),
                _ => r is None,
            },
    {
        match &self.inner {
            JsonValue::Bool(b) => Some(*b),
            _ => None,
        }
    }

    fn as_map(&self) -> (r: Option<Vec<(String, Self)>>)
        ensures
            (r is Some) == self@.is_object(),
            r matches Some(v) ==> impl_entries(v@) == self@.entries(),
    {
        self.entries_of()
    }

    fn as_array(&self) -> (r: Option<Vec<Self>>)
        ensures
            (r is Some) == self@.is_array(),
            r matches Some(v) ==> impl_views(v@) == self@.items(),
    {
        self.items_of()
    }

    fn get(&self, key: &str) -> (r: Option<Self>)
        ensures
            match self@.get_key(key@) {
                Some(x) => r matches Some(v) && v@ == x,
                None => r is None,
            },
    {
        proof {
            use_type_invariant(self);
        }
        match self.inner.get_key(key) {
            Some(v) => {
                proof {
                    lemma_get_key_wf(self@, key@);
                }
                Some(Self::wrap(v))
            },
            None => None,
        }
    }

    fn get_all(&self) -> (r: Vec<Self>)
        ensures
            impl_views(r@) == obj_values(self@.entries()),
    {
        match self.entries_of() {
            Some(entries) => {
                let n = entries.len();
                let ghost all = entries@;
                let mut rest = entries;
                let mut out: Vec<Self> = Vec::new();
                let mut i: usize = 0;
                while i < n
                    invariant
                        n == all.len(),
                        impl_entries(all) == self@.entries(),
                        i <= n,
                        rest@ == all.skip(i as int),
                        out.len() == i,
                        forall|j: int| 0 <= j < i ==> (#[trigger] out@[j])@ == all[j].1@,
                    decreases n - i,
                {
                    let (_k, v) = rest.remove(0);
                    proof {
                        assert(all[i as int] == (_k, v));
                        assert(rest@ =~= all.skip(i + 1));
                    }
                    out.push(v);
                    i = i + 1;
                }
                proof {
                    assert forall|j: int| 0 <= j < n implies #[trigger] self@.entries()[j] == (all[j].0@, all[j].1@) by {
                        assert(impl_entries(all)[j] == (all[j].0@, all[j].1@));
                    }
                    assert(impl_views(out@) =~= obj_values(self@.entries()));
                }
                out
            },
            None => {
                let out: Vec<Self> = Vec::new();
                assert(impl_views(out@) =~= obj_values(self@.entries()));
                out
            },
        }
    }

    fn set(&mut self, key: &str, value: Self) -> (r: DynamicResult<()>)
        ensures
            old(self)@.is_object() ==> r is Ok && final(self)@ == old(self)@.set_key(
                key@,
                value@,
            ),
            !old(self)@.is_object() ==> final(self)@ == old(self)@ && (r matches Err(e) && e@
                == DynamicErrorView::TypeMismatch(
                "No se puede establecer una clave en un valor que no es objeto"@,
            )),
    {
        proof {
            use_type_invariant(&*self);
            use_type_invariant(&value);
            lemma_set_key_wf(self@, key@, value@);
        }
        let mut inner = JsonValue::Null;
        std::mem::swap(&mut self.inner, &mut inner);
        let ok = inner.set_key(key, value.inner);
        self.inner = inner;
        if ok {
            Ok(())
        } else {
            Err(
                DynamicError::TypeMismatch(
                    String::from_str(
                        "No se puede establecer una clave en un valor que no es objeto",
                    ),
                ),
            )
        }
    }

    fn remove(&mut self, key: &str) -> (r: DynamicResult<()>)
        ensures
            old(self)@.is_object() ==> r is Ok && final(self)@ == old(self)@.remove_key(key@),
            !old(self)@.is_object() ==> final(self)@ == old(self)@ && (r matches Err(e) && e@
                == DynamicErrorView::TypeMismatch(
                "No se puede eliminar una clave en un valor que no es objeto"@,
            )),
    {
        proof {
            use_type_invariant(&*self);
            lemma_remove_key_wf(self@, key@);
        }
        let mut inner = JsonValue::Null;
        std::mem::swap(&mut self.inner, &mut inner);
        let taken = inner.take_key(key);
        self.inner = inner;
        match taken {
            Some(_) => Ok(()),
            None => Err(
                DynamicError::TypeMismatch(
                    String::from_str("No se puede eliminar una clave en un valor que no es objeto"),
                ),
            ),
        }
    }

    fn push(&mut self, value: Self) -> (r: DynamicResult<()>)
        ensures
            old(self)@.is_array() ==> r is Ok && final(self)@ == JsonView::Array(
                old(self)@.items().push(value@),
            ),
            !old(self)@.is_array() ==> final(self)@ == old(self)@ && (r matches Err(e) && e@
                == DynamicErrorView::TypeMismatch(
                "No se puede agregar un elemento a un valor que no es arreglo"@,
            )),
    {
        proof {
            use_type_invariant(&*self);
            use_type_invariant(&value);
            if self@.is_array() {
                lemma_push_wf(self@, value@);
            }
        }
        let mut inner = JsonValue::Null;
        std::mem::swap(&mut self.inner, &mut inner);
        let ok = inner.push_item(value.inner);
        self.inner = inner;
        if ok {
            Ok(())
        } else {
            Err(
                DynamicError::TypeMismatch(
                    String::from_str("No se puede agregar un elemento a un valor que no es arreglo"),
                ),
            )
        }
    }

    fn is_empty(&self) -> (r: bool)
        ensures
            r == self@.is_blank(),
    {
        self.inner.is_blank()
    }

    fn get_type(&self) -> (r: String)
        ensures
            r@ == self@.kind_name(),
    {
        self.inner.kind_name()
    }

    fn iter_object(&self) -> (r: Option<Vec<(String, Self)>>)
        ensures
            (r is Some) == self@.is_object(),
            r matches Some(v) ==> impl_entries(v@) == self@.entries(),
    {
        self.entries_of()
    }

    fn iter_array(&self) -> (r: Option<Vec<Self>>)
        ensures
            (r is Some) == self@.is_array(),
            r matches Some(v) ==> impl_views(v@) == self@.items(),
    {
        self.items_of()
    }

    fn get_by_path(&self, path: &str) -> (r: DynamicResult<Option<Self>>)
        ensures
            !valid_path(path@) ==> (r matches Err(e) && e@ == DynamicErrorView::InvalidPath(
                invalid_path_message(path@),
            )),
            valid_path(path@) ==> match navigate(self@, split_on(path@, '.')) {
                Some(x) => r matches Ok(Some(v)) && v@ == x,
                None => r matches Ok(None),
            },
    {
        if !is_valid_path(path) {
            let mut m = String::from_str("Path inválido: '");
            m.append(path);
            m.append("'");
            return Err(DynamicError::InvalidPath(m));
        }
        proof {
            use_type_invariant(self);
        }
        let parts = split_path(path);
        proof {
            assert(texts(parts@).skip(0) =~= texts(parts@));
        }
        match self.inner.navigate_from(&parts, 0) {
            Some(v) => {
                proof {
                    lemma_navigate_wf(self@, split_on(path@, '.'));
                }
                Ok(Some(Self::wrap(v)))
            },
            None => Ok(None),
        }
    }

    fn set_by_path(&mut self, path: &str, value: Self) -> (r: DynamicResult<()>)
        ensures
            !valid_path(path@) ==> final(self)@ == old(self)@ && (r matches Err(e) && e@
                == DynamicErrorView::InvalidPath(invalid_path_message(path@))),
            valid_path(path@) ==> final(self)@ == loose_path_set(
                old(self)@,
                split_on(path@, '.'),
                value@,
            ).0,
            valid_path(path@) && loose_path_set(old(self)@, split_on(path@, '.'), value@).1
                ==> r is Ok,
            valid_path(path@) && !loose_path_set(old(self)@, split_on(path@, '.'), value@).1
                ==> (r matches Err(e) && e@ == DynamicErrorView::TypeMismatch(
                "No se puede establecer una clave en un valor que no es objeto"@,
            )),
    {
        if !is_valid_path(path) {
            let mut m = String::from_str("Path inválido: '");
            m.append(path);
            m.append("'");
            return Err(DynamicError::InvalidPath(m));
        }
        let parts = split_path(path);
        proof {
            use_type_invariant(&*self);
            use_type_invariant(&value);
            assert(texts(parts@).skip(0) =~= texts(parts@));
            assert(parts.len() > 0);
            lemma_loose_path_set_wf(self@, split_on(path@, '.'), value@);
        }
        let mut inner = JsonValue::Null;
        std::mem::swap(&mut self.inner, &mut inner);
        let ok = inner.loose_set_path_from(&parts, 0, value.inner);
        self.inner = inner;
        if ok {
            Ok(())
        } else {
            Err(
                DynamicError::TypeMismatch(
                    String::from_str(
                        "No se puede establecer una clave en un valor que no es objeto",
                    ),
                ),
            )
        }
    }

    fn deep_clone(&self) -> (r: Self)
        ensures
            r@ == self@,
    {
        self.clone()
    }

    fn merge(&mut self, other: &Self) -> (r: DynamicResult<()>)
        ensures
            !old(self)@.is_object() ==> final(self)@ == old(self)@ && (r matches Err(e) && e@
                == DynamicErrorView::TypeMismatch("Solo se pueden mergear objetos"@)),
            old(self)@.is_object() && !other@.is_object() ==> final(self)@ == old(self)@ && (
            r matches Err(e) && e@ == DynamicErrorView::TypeMismatch(
                "El valor a mergear debe ser un objeto"@,
            )),
            old(self)@.is_object() && other@.is_object() ==> r is Ok && final(self)@
                == merge_objects(old(self)@, other@),
    {
        if !self.inner.is_object() {
            return Err(DynamicError::TypeMismatch(String::from_str("Solo se pueden mergear objetos")));
        }
        if !other.inner.is_object() {
            return Err(
                DynamicError::TypeMismatch(String::from_str("El valor a mergear debe ser un objeto")),
            );
        }
        proof {
            use_type_invariant(&*self);
            use_type_invariant(other);
            lemma_merge_objects_wf(self@, other@);
        }
        let mut inner = JsonValue::Null;
        std::mem::swap(&mut self.inner, &mut inner);
        inner.merge_objects(&other.inner);
        self.inner = inner;
        Ok(())
    }

    fn keys(&self) -> (r: Vec<String>)
        ensures
            texts(r@) == obj_keys(self@.entries()),
    {
        let mut names: Vec<String> = Vec::new();
        match &self.inner {
            JsonValue::Object(entries) => {
                let mut i: usize = 0;
                proof {
                    lemma_view_entries(entries@);
                }
                while i < entries.len()
                    invariant
                        self@ == JsonView::Object(view_entries(entries@)),
                        view_entries(entries@).len() == entries.len(),
                        forall|j: int|
                            0 <= j < entries.len() ==> #[trigger] view_entries(entries@)[j] == (
                            entries@[j].0@, entries@[j].1@),
                        i <= entries.len(),
                        names.len() == i,
                        forall|j: int| 0 <= j < i ==> (#[trigger] names@[j])@ == entries@[j].0@,
                    decreases entries.len() - i,
                {
                    names.push(entries[i].0.clone());
                    i = i + 1;
                }
                proof {
                    assert(texts(names@) =~= obj_keys(self@.entries()));
                }
            },
            _ => {
                assert(texts(names@) =~= obj_keys(self@.entries()));
            },
        }
        names
    }

    fn matches_schema(&self, schema: &Self) -> (r: bool)
        ensures
            r == matches_schema(self@, schema@),
    {
        self.inner.matches_schema(&schema.inner)
    }

    fn is_valid_path(path: &str) -> (r: bool)
        ensures
            r == valid_path(path@),
    {
        is_valid_path(path)
    }

    fn split_path(path: &str) -> (r: Vec<String>)
        ensures
            texts(r@) == split_on(path@, '.'),
    {
        split_path(path)
    }
}

/// Turning some outside form of a value into a dynamic value.
pub trait DynamicValueConverter<T> {
    type Output;

    fn convert(&self, input: T) -> Result<Self::Output, String>;
}

/// The message for a value that breaks the rules of a JSON value.
pub open spec fn malformed_message() -> Seq<char> {
    "Valor JSON mal formado"@
}

/// Makes dynamic values out of what the JSON parser read from a text.
pub struct JsonToDynamicValueConverter;

impl DynamicValueConverter<Result<JsonValue, String>> for JsonToDynamicValueConverter {
    type Output = DynamicValueImpl;

    /// The dynamic value of a parsed text; the parser's message when it
    /// failed.
    fn convert(&self, input: Result<JsonValue, String>) -> (r: Result<DynamicValueImpl, String>)
        ensures
            match input {
                Ok(v) => if v@.wf() {
                    r matches Ok(x) && x@ == v@
                } else {
                    r matches Err(m) && m@ == malformed_message()
                },
                Err(m) => r matches Err(e) && e@ == m@,
            },
    {
        match input {
            Ok(v) => match DynamicValueImpl::from_serde_value(v) {
                Some(x) => Ok(x),
                None => Err(String::from_str("Valor JSON mal formado")),
            },
            Err(m) => Err(m),
        }
    }
}

} // verus!

use vstd::prelude::*;
use crate::text::{compare_text, TextOrder};
use crate::value::{
    JsonValue, JsonView, obj_get, obj_set, view_entries, view_items, lemma_view_entries,
    lemma_view_items, find_entry, lemma_get_key_wf, lemma_set_key_wf,
};

verus! {

/// Deep merge of `b` into `a`: two objects merge key by key, in `b`'s key
/// order, two arrays are concatenated, and anything else is replaced by `b`.
pub open spec fn merge_deep(a: JsonView, b: JsonView) -> JsonView
    decreases b,
{
    match (a, b) {
        (JsonView::Object(ea), JsonView::Object(eb)) => JsonView::Object(merge_entries(ea, eb)),
        (JsonView::Array(x), JsonView::Array(y)) => JsonView::Array(x + y),
        _ => b,
    }
}

/// The entries of `ea` after merging in each entry of `eb` in turn: a key
/// already present gets the deep merge of its value with the new one, a new
/// key gets the new value.
pub open spec fn merge_entries(
    ea: Seq<(Seq<char>, JsonView)>,
    eb: Seq<(Seq<char>, JsonView)>,
) -> Seq<(Seq<char>, JsonView)>
    decreases eb,
{
    if eb.len() == 0 {
        ea
    } else {
        let k = eb[0].0;
        let ov = eb[0].1;
        let next = match obj_get(ea, k) {
            Some(sv) => obj_set(ea, k, merge_deep(sv, ov)),
            None => obj_set(ea, k, ov),
        };
        merge_entries(next, eb.skip(1))
    }
}

/// Merge of the shared dynamic value: both must be objects; each key of `b`
/// in turn is written into `a`, merged recursively when both the old and the
/// new value under it are objects.
pub open spec fn merge_objects(a: JsonView, b: JsonView) -> JsonView
    decreases b,
{
    match (a, b) {
        (JsonView::Object(ea), JsonView::Object(eb)) => JsonView::Object(
            merge_object_entries(ea, eb),
        ),
        _ => a,
    }
}

pub open spec fn merge_object_entries(
    ea: Seq<(Seq<char>, JsonView)>,
    eb: Seq<(Seq<char>, JsonView)>,
) -> Seq<(Seq<char>, JsonView)>
    decreases eb,
{
    if eb.len() == 0 {
        ea
    } else {
        let k = eb[0].0;
        let ov = eb[0].1;
        let next = match obj_get(ea, k) {
            Some(sv) => if sv.is_object() && ov.is_object() {
                obj_set(ea, k, merge_objects(sv, ov))
            } else {
                obj_set(ea, k, ov)
            },
            None => obj_set(ea, k, ov),
        };
        merge_object_entries(next, eb.skip(1))
    }
}

/// Structural equality of JSON values, numbers compared as numbers: arrays
/// item by item, objects of the same size whose every key of `a` is in `b`
/// with an equal value.
pub open spec fn json_equiv(a: JsonView, b: JsonView) -> bool
    decreases a,
{
    match (a, b) {
        (JsonView::Null, JsonView::Null) => true,
        (JsonView::Bool(x), JsonView::Bool(y)) => x == y,
        (JsonView::Number(x), JsonView::Number(y)) => x.equiv(y),
        (JsonView::Str(x), JsonView::Str(y)) => x == y,
        (JsonView::Array(x), JsonView::Array(y)) => x.len() == y.len() && forall|i: int|
            0 <= i < x.len() ==> json_equiv(#[trigger] x[i], y[i]),
        (JsonView::Object(x), JsonView::Object(y)) => x.len() == y.len() && forall|i: int|
            0 <= i < x.len() ==> match obj_get(y, (#[trigger] x[i]).0) {
                Some(bv) => json_equiv(x[i].1, bv),
                None => false,
            },
        _ => false,
    }
}

/// Whether `v` matches a simple schema: a type name (`string`, `number`,
/// `boolean`, `object`, `array`, `null`) or an object whose every key must be
/// present in `v` with a value that matches the schema under it.
pub open spec fn matches_schema(v: JsonView, schema: JsonView) -> bool
    decreases schema,
{
    match schema {
        JsonView::Str(t) => {
            ||| t == "string"@ && v is Str
            ||| t == "number"@ && v is Number
            ||| t == "boolean"@ && v is Bool
            ||| t == "object"@ && v is Object
            ||| t == "array"@ && v is Array
            ||| t == "null"@ && v is Null
        },
        JsonView::Object(e) => v.is_object() && forall|i: int|
            0 <= i < e.len() ==> match v.get_key((#[trigger] e[i]).0) {
                Some(x) => matches_schema(x, e[i].1),
                None => false,
            },
        _ => false,
    }
}

/// Merging well-formed values gives a well-formed value.
pub proof fn lemma_merge_deep_wf(a: JsonView, b: JsonView)
    requires
        a.wf(),
        b.wf(),
    ensures
        merge_deep(a, b).wf(),
    decreases b,
{
    match (a, b) {
        (JsonView::Object(ea), JsonView::Object(eb)) => {
            lemma_merge_entries_wf(ea, eb);
        },
        (JsonView::Array(x), JsonView::Array(y)) => {
            let z = x + y;
            assert forall|i: int| 0 <= i < z.len() implies (#[trigger] z[i]).wf() by {
                if i < x.len() {
                    assert(z[i] == x[i]);
                } else {
                    assert(z[i] == y[i - x.len()]);
                }
            }
        },
        _ => {},
    }
}

pub proof fn lemma_merge_entries_wf(ea: Seq<(Seq<char>, JsonView)>, eb: Seq<(Seq<char>, JsonView)>)
    requires
        JsonView::Object(ea).wf(),
        forall|i: int| 0 <= i < eb.len() ==> (#[trigger] eb[i]).1.wf(),
    ensures
        JsonView::Object(merge_entries(ea, eb)).wf(),
    decreases eb,
{
    if eb.len() > 0 {
        let k = eb[0].0;
        let ov = eb[0].1;
        let v = JsonView::Object(ea);
        assert(ov.wf());
        if obj_get(ea, k) is Some {
            lemma_get_key_wf(v, k);
            lemma_merge_deep_wf(obj_get(ea, k)->0, ov);
            lemma_set_key_wf(v, k, merge_deep(obj_get(ea, k)->0, ov));
        } else {
            lemma_set_key_wf(v, k, ov);
        }
        let next = match obj_get(ea, k) {
            Some(sv) => obj_set(ea, k, merge_deep(sv, ov)),
            None => obj_set(ea, k, ov),
        };
        assert forall|i: int| 0 <= i < eb.skip(1).len() implies (#[trigger] eb.skip(1)[i]).1.wf() by {
            assert(eb.skip(1)[i] == eb[i + 1]);
        }
        lemma_merge_entries_wf(next, eb.skip(1));
    }
}

/// Merging well-formed objects in the manner of the shared dynamic value
/// gives a well-formed value.
pub proof fn lemma_merge_objects_wf(a: JsonView, b: JsonView)
    requires
        a.wf(),
        b.wf(),
    ensures
        merge_objects(a, b).wf(),
    decreases b,
{
    match (a, b) {
        (JsonView::Object(ea), JsonView::Object(eb)) => {
            lemma_merge_object_entries_wf(ea, eb);
        },
        _ => {},
    }
}

pub proof fn lemma_merge_object_entries_wf(
    ea: Seq<(Seq<char>, JsonView)>,
    eb: Seq<(Seq<char>, JsonView)>,
)
    requires
        JsonView::Object(ea).wf(),
        forall|i: int| 0 <= i < eb.len() ==> (#[trigger] eb[i]).1.wf(),
    ensures
        JsonView::Object(merge_object_entries(ea, eb)).wf(),
    decreases eb,
{
    if eb.len() > 0 {
        let k = eb[0].0;
        let ov = eb[0].1;
        let v = JsonView::Object(ea);
        assert(ov.wf());
        if obj_get(ea, k) is Some {
            lemma_get_key_wf(v, k);
            let sv = obj_get(ea, k)->0;
            if sv.is_object() && ov.is_object() {
                lemma_merge_objects_wf(sv, ov);
                lemma_set_key_wf(v, k, merge_objects(sv, ov));
            } else {
                lemma_set_key_wf(v, k, ov);
            }
        } else {
            lemma_set_key_wf(v, k, ov);
        }
        let next = match obj_get(ea, k) {
            Some(sv) => if sv.is_object() && ov.is_object() {
                obj_set(ea, k, merge_objects(sv, ov))
            } else {
                obj_set(ea, k, ov)
            },
            None => obj_set(ea, k, ov),
        };
        assert forall|i: int| 0 <= i < eb.skip(1).len() implies (#[trigger] eb.skip(1)[i]).1.wf() by {
            assert(eb.skip(1)[i] == eb[i + 1]);
        }
        lemma_merge_object_entries_wf(next, eb.skip(1));
    }
}

impl JsonValue {
    /// Deep-merges `other` into this value, as `merge_deep` states.
    pub fn merge_deep(&mut self, other: &JsonValue)
        ensures
            final(self)@ == merge_deep(old(self)@, other@),
        decreases other,
    {
        if self.is_object() && other.is_object() {
            let oe = match other {
                JsonValue::Object(e) => e,
                _ => {
                    return ;
                },
            };
            let ghost eb = view_entries(oe@);
            let ghost ea0 = self@.entries();
            proof {
                lemma_view_entries(oe@);
                assert(eb.skip(0) =~= eb);
                assert forall|j: int| 0 <= j < oe.len() implies decreases_to!(other => oe@[j].1) by {
                    assert(decreases_to!(other => oe));
                }
            }
            let mut i: usize = 0;
            while i < oe.len()
                invariant
                    eb == view_entries(oe@),
                    eb.len() == oe.len(),
                    forall|j: int| 0 <= j < eb.len() ==> #[trigger] eb[j] == (oe@[j].0@, oe@[j].1@),
                    forall|j: int| 0 <= j < oe.len() ==> decreases_to!(other => oe@[j].1),
                    i <= oe.len(),
                    self@.is_object(),
                    merge_entries(ea0, eb) == merge_entries(self@.entries(), eb.skip(i as int)),
                decreases oe.len() - i,
            {
                let key = oe[i].0.as_str();
                let ov = &oe[i].1;
                let ghost cur = self@.entries();
                proof {
                    assert(eb.skip(i as int)[0] == eb[i as int]);
                    assert(eb.skip(i as int).skip(1) =~= eb.skip(i + 1));
                }
                match self.get_key(key) {
                    Some(mut sv) => {
                        sv.merge_deep(ov);
                        self.set_key(key, sv);
                    },
                    None => {
                        self.set_key(key, ov.clone());
                    },
                }
                i = i + 1;
            }
            proof {
                assert(eb.skip(i as int).len() == 0);
            }
        } else if self.is_array() && other.is_array() {
            let items = match other {
                JsonValue::Array(a) => a,
                _ => {
                    return ;
                },
            };
            let ghost x0 = self@.items();
            let ghost y = view_items(items@);
            proof {
                lemma_view_items(items@);
            }
            let mut i: usize = 0;
            while i < items.len()
                invariant
                    y == view_items(items@),
                    y.len() == items.len(),
                    forall|j: int| 0 <= j < y.len() ==> #[trigger] y[j] == items@[j]@,
                    i <= items.len(),
                    self@ == JsonView::Array(x0 + y.take(i as int)),
                decreases items.len() - i,
            {
                let c = items[i].clone();
                self.push_item(c);
                proof {
                    assert(x0 + y.take(i + 1) =~= (x0 + y.take(i as int)).push(y[i as int]));
                }
                i = i + 1;
            }
            proof {
                assert(y.take(i as int) =~= y);
            }
        } else {
            *self = other.clone();
        }
    }

    /// Merges `other` into this value as `merge_objects` states; both must be
    /// objects, and the value is left as it is when they are not.
    pub fn merge_objects(&mut self, other: &JsonValue)
        ensures
            final(self)@ == merge_objects(old(self)@, other@),
        decreases other,
    {
        if !(self.is_object() && other.is_object()) {
            return ;
        }
        let oe = match other {
            JsonValue::Object(e) => e,
            _ => {
                return ;
            },
        };
        let ghost eb = view_entries(oe@);
        let ghost ea0 = self@.entries();
        proof {
            lemma_view_entries(oe@);
            assert(eb.skip(0) =~= eb);
            assert forall|j: int| 0 <= j < oe.len() implies decreases_to!(other => oe@[j].1) by {
                assert(decreases_to!(other => oe));
            }
        }
        let mut i: usize = 0;
        while i < oe.len()
            invariant
                eb == view_entries(oe@),
                eb.len() == oe.len(),
                forall|j: int| 0 <= j < eb.len() ==> #[trigger] eb[j] == (oe@[j].0@, oe@[j].1@),
                forall|j: int| 0 <= j < oe.len() ==> decreases_to!(other => oe@[j].1),
                i <= oe.len(),
                self@.is_object(),
                merge_object_entries(ea0, eb) == merge_object_entries(
                    self@.entries(),
                    eb.skip(i as int),
                ),
            decreases oe.len() - i,
        {
            let key = oe[i].0.as_str();
            let ov = &oe[i].1;
            proof {
                assert(eb.skip(i as int)[0] == eb[i as int]);
                assert(eb.skip(i as int).skip(1) =~= eb.skip(i + 1));
            }
            match self.get_key(key) {
                Some(mut sv) => {
                    if sv.is_object() && ov.is_object() {
                        sv.merge_objects(ov);
                        self.set_key(key, sv);
                    } else {
                        self.set_key(key, ov.clone());
                    }
                },
                None => {
                    self.set_key(key, ov.clone());
                },
            }
            i = i + 1;
        }
        proof {
            assert(eb.skip(i as int).len() == 0);
        }
    }

    /// Structural equality, as `json_equiv` states.
    pub fn equivalent(&self, other: &JsonValue) -> (r: bool)
        ensures
            r == json_equiv(self@, other@),
        decreases self,
    {
        match (self, other) {
            (JsonValue::Null, JsonValue::Null) => true,
            (JsonValue::Bool(x), JsonValue::Bool(y)) => *x == *y,
            (JsonValue::Number(x), JsonValue::Number(y)) => x.equals(y),
            (JsonValue::Str(x), JsonValue::Str(y)) => compare_text(x.as_str(), y.as_str())
                == TextOrder::Equal,
            (JsonValue::Array(x), JsonValue::Array(y)) => {
                proof {
                    lemma_view_items(x@);
                    lemma_view_items(y@);
                }
                if x.len() != y.len() {
                    return false;
                }
                let mut i: usize = 0;
                while i < x.len()
                    invariant
                        x.len() == y.len(),
                        view_items(x@).len() == x.len(),
                        view_items(y@).len() == y.len(),
                        forall|j: int| 0 <= j < x.len() ==> #[trigger] view_items(x@)[j] == x@[j]@,
                        forall|j: int| 0 <= j < y.len() ==> #[trigger] view_items(y@)[j] == y@[j]@,
                        forall|j: int| 0 <= j < x.len() ==> decreases_to!(self => x@[j]),
                        self@ == JsonView::Array(view_items(x@)),
                        other@ == JsonView::Array(view_items(y@)),
                        i <= x.len(),
                        forall|j: int|
                            0 <= j < i ==> json_equiv(#[trigger] view_items(x@)[j], view_items(y@)[j]),
                    decreases x.len() - i,
                {
                    if !x[i].equivalent(&y[i]) {
                        assert(!json_equiv(view_items(x@)[i as int], view_items(y@)[i as int]));
                        return false;
                    }
                    i = i + 1;
                }
                true
            },
            (JsonValue::Object(x), JsonValue::Object(y)) => {
                proof {
                    lemma_view_entries(x@);
                    lemma_view_entries(y@);
                }
                if x.len() != y.len() {
                    return false;
                }
                let ghost ex = view_entries(x@);
                let ghost ey = view_entries(y@);
                let mut i: usize = 0;
                while i < x.len()
                    invariant
                        x.len() == y.len(),
                        ex == view_entries(x@),
                        ey == view_entries(y@),
                        ex.len() == x.len(),
                        ey.len() == y.len(),
                        forall|j: int| 0 <= j < x.len() ==> #[trigger] ex[j] == (x@[j].0@, x@[j].1@),
                        forall|j: int| 0 <= j < x.len() ==> decreases_to!(self => x@[j].1),
                        self@ == JsonView::Object(ex),
                        other@ == JsonView::Object(ey),
                        i <= x.len(),
                        forall|j: int|
                            0 <= j < i ==> match obj_get(ey, (#[trigger] ex[j]).0) {
                                Some(bv) => json_equiv(ex[j].1, bv),
                                None => false,
                            },
                    decreases x.len() - i,
                {
                    match find_entry(y, x[i].0.as_str()) {
                        Some(k) => {
                            if !x[i].1.equivalent(&y[k].1) {
                                assert(obj_get(ey, ex[i as int].0) == Some(y@[k as int].1@));
                                assert(!json_equiv(ex[i as int].1, y@[k as int].1@));
                                return false;
                            }
                        },
                        None => {
                            assert(obj_get(ey, ex[i as int].0) is None);
                            return false;
                        },
                    }
                    i = i + 1;
                }
                true
            },
            _ => false,
        }
    }

    /// Whether the two values are the same value, down to the bits of every
    /// double; two values are the same exactly when their JSON texts are.
    pub fn identical(&self, other: &JsonValue) -> (r: bool)
        ensures
            r == (self@ == other@),
        decreases self,
    {
        match (self, other) {
            (JsonValue::Null, JsonValue::Null) => true,
            (JsonValue::Bool(x), JsonValue::Bool(y)) => *x == *y,
            (JsonValue::Number(x), JsonValue::Number(y)) => *x == *y,
            (JsonValue::Str(x), JsonValue::Str(y)) => compare_text(x.as_str(), y.as_str())
                == TextOrder::Equal,
            (JsonValue::Array(x), JsonValue::Array(y)) => {
                proof {
                    lemma_view_items(x@);
                    lemma_view_items(y@);
                }
                if x.len() != y.len() {
                    return false;
                }
                let mut i: usize = 0;
                while i < x.len()
                    invariant
                        x.len() == y.len(),
                        view_items(x@).len() == x.len(),
                        view_items(y@).len() == y.len(),
                        forall|j: int| 0 <= j < x.len() ==> #[trigger] view_items(x@)[j] == x@[j]@,
                        forall|j: int| 0 <= j < y.len() ==> #[trigger] view_items(y@)[j] == y@[j]@,
                        forall|j: int| 0 <= j < x.len() ==> decreases_to!(self => x@[j]),
                        self@ == JsonView::Array(view_items(x@)),
                        other@ == JsonView::Array(view_items(y@)),
                        i <= x.len(),
                        forall|j: int| 0 <= j < i ==> #[trigger] view_items(x@)[j] == view_items(y@)[j],
                    decreases x.len() - i,
                {
                    if !x[i].identical(&y[i]) {
                        assert(view_items(x@)[i as int] != view_items(y@)[i as int]);
                        return false;
                    }
                    i = i + 1;
                }
                assert(view_items(x@) =~= view_items(y@));
                true
            },
            (JsonValue::Object(x), JsonValue::Object(y)) => {
                proof {
                    lemma_view_entries(x@);
                    lemma_view_entries(y@);
                }
                if x.len() != y.len() {
                    return false;
                }
                let ghost ex = view_entries(x@);
                let ghost ey = view_entries(y@);
                let mut i: usize = 0;
                while i < x.len()
                    invariant
                        x.len() == y.len(),
                        ex == view_entries(x@),
                        ey == view_entries(y@),
                        ex.len() == x.len(),
                        ey.len() == y.len(),
                        forall|j: int| 0 <= j < x.len() ==> #[trigger] ex[j] == (x@[j].0@, x@[j].1@),
                        forall|j: int| 0 <= j < y.len() ==> #[trigger] ey[j] == (y@[j].0@, y@[j].1@),
                        forall|j: int| 0 <= j < x.len() ==> decreases_to!(self => x@[j].1),
                        self@ == JsonView::Object(ex),
                        other@ == JsonView::Object(ey),
                        i <= x.len(),
                        forall|j: int| 0 <= j < i ==> #[trigger] ex[j] == ey[j],
                    decreases x.len() - i,
                {
                    if compare_text(x[i].0.as_str(), y[i].0.as_str()) != TextOrder::Equal {
                        assert(ex[i as int] != ey[i as int]);
                        return false;
                    }
                    if !x[i].1.identical(&y[i].1) {
                        assert(ex[i as int] != ey[i as int]);
                        return false;
                    }
                    i = i + 1;
                }
                assert(ex =~= ey);
                true
            },
            _ => false,
        }
    }

    /// Whether this value matches `schema`, as `matches_schema` states.
    pub fn matches_schema(&self, schema: &JsonValue) -> (r: bool)
        ensures
            r == matches_schema(self@, schema@),
        decreases schema,
    {
        match schema {
            JsonValue::Str(t) => {
                let t = t.as_str();
                proof {
                    reveal_strlit("string");
                    reveal_strlit("number");
                    reveal_strlit("boolean");
                    reveal_strlit("object");
                    reveal_strlit("array");
                    reveal_strlit("null");
                }
                if compare_text(t, "string") == TextOrder::Equal {
                    matches!(self, JsonValue::Str(_))
                } else if compare_text(t, "number") == TextOrder::Equal {
                    matches!(self, JsonValue::Number(_))
                } else if compare_text(t, "boolean") == TextOrder::Equal {
                    matches!(self, JsonValue::Bool(_))
                } else if compare_text(t, "object") == TextOrder::Equal {
                    matches!(self, JsonValue::Object(_))
                } else if compare_text(t, "array") == TextOrder::Equal {
                    matches!(self, JsonValue::Array(_))
                } else if compare_text(t, "null") == TextOrder::Equal {
                    matches!(self, JsonValue::Null)
                } else {
                    false
                }
            },
            JsonValue::Object(e) => {
                if !self.is_object() {
                    return false;
                }
                proof {
                    lemma_view_entries(e@);
                }
                let ghost es = view_entries(e@);
                let mut i: usize = 0;
                while i < e.len()
                    invariant
                        es == view_entries(e@),
                        es.len() == e.len(),
                        forall|j: int| 0 <= j < e.len() ==> #[trigger] es[j] == (e@[j].0@, e@[j].1@),
                        forall|j: int| 0 <= j < e.len() ==> decreases_to!(schema => e@[j].1),
                        schema@ == JsonView::Object(es),
                        self@.is_object(),
                        i <= e.len(),
                        forall|j: int|
                            0 <= j < i ==> match self@.get_key((#[trigger] es[j]).0) {
                                Some(x) => matches_schema(x, es[j].1),
                                None => false,
                            },
                    decreases e.len() - i,
                {
                    match self.get_key(e[i].0.as_str()) {
                        Some(actual) => {
                            if !actual.matches_schema(&e[i].1) {
                                assert(self@.get_key(es[i as int].0) == Some(actual@));
                                assert(!matches_schema(actual@, es[i as int].1));
                                return false;
                            }
                        },
                        None => {
                            assert(self@.get_key(es[i as int].0) is None);
                            return false;
                        },
                    }
                    i = i + 1;
                }
                true
            },
            _ => false,
        }
    }
}

} // verus!

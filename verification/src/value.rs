use vstd::prelude::*;
use crate::number::JsonNumber;
use crate::text::{compare_text, TextOrder, text_lt, lemma_text_lt_irreflexive, lemma_text_lt_transitive, lemma_text_lt_total};

verus! {

/// The mathematical model of a JSON value.  An object is the sequence of its
/// entries in key order.
pub enum JsonView {
    Null,
    Bool(bool),
    Number(JsonNumber),
    Str(Seq<char>),
    Array(Seq<JsonView>),
    Object(Seq<(Seq<char>, JsonView)>),
}

/// A JSON value.  An object keeps its entries sorted by key, each key once,
/// as `serde_json`'s map does in its default build: entries are read, listed
/// and printed in key order, not in the order they were written.
pub enum JsonValue {
    Null,
    Bool(bool),
    Number(JsonNumber),
    Str(String),
    Array(Vec<JsonValue>),
    Object(Vec<(String, JsonValue)>),
}

pub open spec fn view_items(s: Seq<JsonValue>) -> Seq<JsonView>
    decreases s,
{
    if s.len() == 0 {
        Seq::empty()
    } else {
        seq![s[0].view()].add(view_items(s.skip(1)))
    }
}

pub open spec fn view_entries(s: Seq<(String, JsonValue)>) -> Seq<(Seq<char>, JsonView)>
    decreases s,
{
    if s.len() == 0 {
        Seq::empty()
    } else {
        seq![(s[0].0@, s[0].1.view())].add(view_entries(s.skip(1)))
    }
}

impl View for JsonValue {
    type V = JsonView;

    open spec fn view(&self) -> JsonView
        decreases self,
    {
        match self {
            JsonValue::Null => JsonView::Null,
            JsonValue::Bool(b) => JsonView::Bool(*b),
            JsonValue::Number(n) => JsonView::Number(*n),
            JsonValue::Str(s) => JsonView::Str(s@),
            JsonValue::Array(items) => JsonView::Array(view_items(items@)),
            JsonValue::Object(entries) => JsonView::Object(view_entries(entries@)),
        }
    }
}

pub proof fn lemma_view_items(s: Seq<JsonValue>)
    ensures
        view_items(s).len() == s.len(),
        forall|i: int| 0 <= i < s.len() ==> #[trigger] view_items(s)[i] == s[i]@,
    decreases s.len(),
{
    if s.len() > 0 {
        assert(view_items(s) == seq![s[0]@].add(view_items(s.skip(1))));
        lemma_view_items(s.skip(1));
        assert forall|i: int| 0 <= i < s.len() implies #[trigger] view_items(s)[i] == s[i]@ by {
            if i > 0 {
                assert(s.skip(1)[i - 1] == s[i]);
            }
        }
    }
}

pub proof fn lemma_view_entries(s: Seq<(String, JsonValue)>)
    ensures
        view_entries(s).len() == s.len(),
        forall|i: int|
            0 <= i < s.len() ==> #[trigger] view_entries(s)[i] == (s[i].0@, s[i].1@),
    decreases s.len(),
{
    if s.len() > 0 {
        assert(view_entries(s) == seq![(s[0].0@, s[0].1@)].add(view_entries(s.skip(1))));
        lemma_view_entries(s.skip(1));
        assert forall|i: int| 0 <= i < s.len() implies #[trigger] view_entries(s)[i] == (
        s[i].0@, s[i].1@) by {
            if i > 0 {
                assert(s.skip(1)[i - 1] == s[i]);
            }
        }
    }
}

/// Two sequences of values have the same views exactly when they agree item by item.
pub proof fn lemma_view_items_ext(a: Seq<JsonValue>, b: Seq<JsonView>)
    requires
        a.len() == b.len(),
        forall|i: int| 0 <= i < a.len() ==> #[trigger] a[i]@ == b[i],
    ensures
        view_items(a) == b,
{
    lemma_view_items(a);
    assert(view_items(a) =~= b);
}

pub proof fn lemma_view_entries_ext(a: Seq<(String, JsonValue)>, b: Seq<(Seq<char>, JsonView)>)
    requires
        a.len() == b.len(),
        forall|i: int| 0 <= i < a.len() ==> (#[trigger] a[i]).0@ == b[i].0 && a[i].1@ == b[i].1,
    ensures
        view_entries(a) == b,
{
    lemma_view_entries(a);
    assert(view_entries(a) =~= b);
}

/// The keys of an object's entries are strictly increasing.
pub open spec fn keys_sorted(e: Seq<(Seq<char>, JsonView)>) -> bool {
    forall|i: int, j: int| 0 <= i < j < e.len() ==> text_lt(#[trigger] e[i].0, #[trigger] e[j].0)
}

/// Every key of the entries lies above `x`.
pub open spec fn keys_above(e: Seq<(Seq<char>, JsonView)>, x: Seq<char>) -> bool {
    forall|j: int| 0 <= j < e.len() ==> text_lt(x, #[trigger] e[j].0)
}

/// The value under `k`: that of the first entry with this key.
pub open spec fn obj_get(e: Seq<(Seq<char>, JsonView)>, k: Seq<char>) -> Option<JsonView>
    decreases e.len(),
{
    if e.len() == 0 {
        None
    } else if e[0].0 == k {
        Some(e[0].1)
    } else {
        obj_get(e.drop_first(), k)
    }
}

/// The entries after writing `v` under `k`: the entry with this key is
/// replaced, or a new one goes before the first entry with a greater key.
pub open spec fn obj_set(e: Seq<(Seq<char>, JsonView)>, k: Seq<char>, v: JsonView) -> Seq<
    (Seq<char>, JsonView),
>
    decreases e.len(),
{
    if e.len() == 0 {
        seq![(k, v)]
    } else if e[0].0 == k {
        seq![(k, v)] + e.drop_first()
    } else if text_lt(k, e[0].0) {
        seq![(k, v)] + e
    } else {
        seq![e[0]] + obj_set(e.drop_first(), k, v)
    }
}

/// The entries without the first entry that has key `k`.
pub open spec fn obj_remove(e: Seq<(Seq<char>, JsonView)>, k: Seq<char>) -> Seq<
    (Seq<char>, JsonView),
>
    decreases e.len(),
{
    if e.len() == 0 {
        e
    } else if e[0].0 == k {
        e.drop_first()
    } else {
        seq![e[0]] + obj_remove(e.drop_first(), k)
    }
}

/// The keys of the entries, in order.
pub open spec fn obj_keys(e: Seq<(Seq<char>, JsonView)>) -> Seq<Seq<char>> {
    e.map_values(|p: (Seq<char>, JsonView)| p.0)
}

/// The values of the entries, in key order.
pub open spec fn obj_values(e: Seq<(Seq<char>, JsonView)>) -> Seq<JsonView> {
    e.map_values(|p: (Seq<char>, JsonView)| p.1)
}

impl JsonView {
    /// Well-formed: numbers are normalized, and each object has its keys
    /// strictly sorted, all the way down.
    pub open spec fn wf(self) -> bool
        decreases self,
    {
        match self {
            JsonView::Number(n) => n.wf(),
            JsonView::Array(items) => forall|i: int|
                0 <= i < items.len() ==> (#[trigger] items[i]).wf(),
            JsonView::Object(e) => keys_sorted(e) && forall|i: int|
                0 <= i < e.len() ==> (#[trigger] e[i]).1.wf(),
            _ => true,
        }
    }

    pub open spec fn is_object(self) -> bool {
        self is Object
    }

    pub open spec fn is_array(self) -> bool {
        self is Array
    }

    /// Null, the empty string, the empty array and the empty object are empty.
    pub open spec fn is_blank(self) -> bool {
        match self {
            JsonView::Null => true,
            JsonView::Str(s) => s.len() == 0,
            JsonView::Array(a) => a.len() == 0,
            JsonView::Object(e) => e.len() == 0,
            _ => false,
        }
    }

    /// The name of the value's kind.
    pub open spec fn kind_name(self) -> Seq<char> {
        match self {
            JsonView::Null => "Null"@,
            JsonView::Bool(_) => "Bool"@,
            JsonView::Number(_) => "Number"@,
            JsonView::Str(_) => "String"@,
            JsonView::Array(_) => "Array"@,
            JsonView::Object(_) => "Object"@,
        }
    }

    /// The value under `k` of an object; nothing for any other value.
    pub open spec fn get_key(self, k: Seq<char>) -> Option<JsonView> {
        match self {
            JsonView::Object(e) => obj_get(e, k),
            _ => None,
        }
    }

    /// The object after writing `v` under `k`.
    pub open spec fn set_key(self, k: Seq<char>, v: JsonView) -> JsonView {
        match self {
            JsonView::Object(e) => JsonView::Object(obj_set(e, k, v)),
            _ => self,
        }
    }

    /// The object without key `k`.
    pub open spec fn remove_key(self, k: Seq<char>) -> JsonView {
        match self {
            JsonView::Object(e) => JsonView::Object(obj_remove(e, k)),
            _ => self,
        }
    }

    /// The entries of an object; none for any other value.
    pub open spec fn entries(self) -> Seq<(Seq<char>, JsonView)> {
        match self {
            JsonView::Object(e) => e,
            _ => Seq::empty(),
        }
    }

    /// The items of an array; none for any other value.
    pub open spec fn items(self) -> Seq<JsonView> {
        match self {
            JsonView::Array(a) => a,
            _ => Seq::empty(),
        }
    }
}

pub proof fn lemma_obj_get_some(e: Seq<(Seq<char>, JsonView)>, k: Seq<char>)
    requires
        obj_get(e, k) is Some,
    ensures
        exists|i: int| 0 <= i < e.len() && (#[trigger] e[i]).0 == k && e[i].1 == obj_get(e, k)->0,
    decreases e.len(),
{
    if e[0].0 != k {
        lemma_obj_get_some(e.drop_first(), k);
        let i = choose|i: int|
            0 <= i < e.drop_first().len() && (#[trigger] e.drop_first()[i]).0 == k
                && e.drop_first()[i].1 == obj_get(e.drop_first(), k)->0;
        assert(e[i + 1] == e.drop_first()[i]);
    } else {
        assert(e[0].0 == k);
    }
}

pub proof fn lemma_obj_get_none(e: Seq<(Seq<char>, JsonView)>, k: Seq<char>)
    ensures
        obj_get(e, k) is None <==> forall|i: int| 0 <= i < e.len() ==> (#[trigger] e[i]).0 != k,
    decreases e.len(),
{
    if e.len() > 0 {
        lemma_obj_get_none(e.drop_first(), k);
        if e[0].0 != k {
            assert forall|i: int| 0 <= i < e.len() && obj_get(e, k) is None implies (#[trigger] e[i]).0 != k by {
                if i > 0 {
                    assert(e[i] == e.drop_first()[i - 1]);
                }
            }
            if forall|i: int| 0 <= i < e.len() ==> (#[trigger] e[i]).0 != k {
                assert forall|i: int| 0 <= i < e.drop_first().len() implies (#[trigger] e.drop_first()[i]).0 != k by {
                    assert(e.drop_first()[i] == e[i + 1]);
                }
            }
        }
    }
}

/// In sorted entries, the value under a key is that of the entry holding it.
pub proof fn lemma_obj_get_sorted(e: Seq<(Seq<char>, JsonView)>, i: int)
    requires
        keys_sorted(e),
        0 <= i < e.len(),
    ensures
        obj_get(e, e[i].0) == Some(e[i].1),
    decreases i,
{
    if i > 0 {
        assert(text_lt(e[0].0, e[i].0));
        lemma_text_lt_irreflexive(e[i].0);
        assert(keys_sorted(e.drop_first())) by {
            assert forall|a: int, b: int| 0 <= a < b < e.drop_first().len() implies text_lt(
                #[trigger] e.drop_first()[a].0,
                #[trigger] e.drop_first()[b].0,
            ) by {
                assert(e.drop_first()[a] == e[a + 1]);
                assert(e.drop_first()[b] == e[b + 1]);
            }
        }
        assert(e.drop_first()[i - 1] == e[i]);
        lemma_obj_get_sorted(e.drop_first(), i - 1);
    }
}

pub proof fn lemma_keys_sorted_drop_first(e: Seq<(Seq<char>, JsonView)>)
    requires
        keys_sorted(e),
        e.len() > 0,
    ensures
        keys_sorted(e.drop_first()),
        keys_above(e.drop_first(), e[0].0),
{
    assert forall|a: int, b: int| 0 <= a < b < e.drop_first().len() implies text_lt(
        #[trigger] e.drop_first()[a].0,
        #[trigger] e.drop_first()[b].0,
    ) by {
        assert(e.drop_first()[a] == e[a + 1]);
        assert(e.drop_first()[b] == e[b + 1]);
    }
    assert forall|j: int| 0 <= j < e.drop_first().len() implies text_lt(
        e[0].0,
        #[trigger] e.drop_first()[j].0,
    ) by {
        assert(e.drop_first()[j] == e[j + 1]);
    }
}

/// Reading a key right after writing it gives what was written.
pub proof fn lemma_obj_set_get(e: Seq<(Seq<char>, JsonView)>, k: Seq<char>, v: JsonView)
    ensures
        obj_get(obj_set(e, k, v), k) == Some(v),
    decreases e.len(),
{
    if e.len() > 0 && e[0].0 != k && !text_lt(k, e[0].0) {
        lemma_obj_set_get(e.drop_first(), k, v);
        assert((seq![e[0]] + obj_set(e.drop_first(), k, v)).drop_first() =~= obj_set(e.drop_first(), k, v));
    }
}

/// Writing a key leaves what the other keys read as it was.
pub proof fn lemma_obj_set_get_other(
    e: Seq<(Seq<char>, JsonView)>,
    k: Seq<char>,
    v: JsonView,
    other: Seq<char>,
)
    requires
        other != k,
    ensures
        obj_get(obj_set(e, k, v), other) == obj_get(e, other),
    decreases e.len(),
{
    let r = obj_set(e, k, v);
    if e.len() > 0 {
        if e[0].0 == k {
            assert(r[0] == (k, v));
            assert(r.drop_first() =~= e.drop_first());
            assert(obj_get(r, other) == obj_get(r.drop_first(), other));
            assert(obj_get(e, other) == obj_get(e.drop_first(), other));
        } else if text_lt(k, e[0].0) {
            assert(r[0] == (k, v));
            assert(r.drop_first() =~= e);
            assert(obj_get(r, other) == obj_get(r.drop_first(), other));
        } else {
            lemma_obj_set_get_other(e.drop_first(), k, v, other);
            assert(r[0] == e[0]);
            assert(r.drop_first() =~= obj_set(e.drop_first(), k, v));
        }
    } else {
        assert(r[0] == (k, v));
        assert(r.drop_first() =~= Seq::<(Seq<char>, JsonView)>::empty());
        assert(obj_get(r, other) == obj_get(r.drop_first(), other));
    }
}

/// Removing the first entry with a key, found at position `i`.
pub proof fn lemma_obj_remove_at(e: Seq<(Seq<char>, JsonView)>, k: Seq<char>, i: int)
    requires
        0 <= i < e.len(),
        e[i].0 == k,
        obj_get(e, k) == Some(e[i].1),
        forall|j: int| 0 <= j < i ==> (#[trigger] e[j]).0 != k,
    ensures
        obj_remove(e, k) == e.take(i) + e.skip(i + 1),
    decreases i,
{
    if i > 0 {
        assert(e[0].0 != k);
        assert forall|j: int| 0 <= j < i - 1 implies (#[trigger] e.drop_first()[j]).0 != k by {
            assert(e.drop_first()[j] == e[j + 1]);
        }
        assert(e.drop_first()[i - 1] == e[i]);
        lemma_obj_remove_at(e.drop_first(), k, i - 1);
        assert(e.take(i) + e.skip(i + 1) =~= seq![e[0]] + (e.drop_first().take(i - 1)
            + e.drop_first().skip(i)));
    } else {
        assert(e.skip(1) =~= e.drop_first());
        assert(e.take(0) + e.skip(1) =~= e.skip(1));
    }
}

/// Removing a key that no entry has leaves the entries as they are.
pub proof fn lemma_obj_remove_absent(e: Seq<(Seq<char>, JsonView)>, k: Seq<char>)
    requires
        forall|j: int| 0 <= j < e.len() ==> (#[trigger] e[j]).0 != k,
    ensures
        obj_remove(e, k) == e,
    decreases e.len(),
{
    if e.len() > 0 {
        assert(e[0].0 != k);
        assert forall|j: int| 0 <= j < e.drop_first().len() implies (#[trigger] e.drop_first()[j]).0 != k by {
            assert(e.drop_first()[j] == e[j + 1]);
        }
        lemma_obj_remove_absent(e.drop_first(), k);
        assert(seq![e[0]] + e.drop_first() =~= e);
    }
}

/// Writing a key keeps the keys above any bound that lies below it.
pub proof fn lemma_obj_set_above(
    e: Seq<(Seq<char>, JsonView)>,
    k: Seq<char>,
    v: JsonView,
    x: Seq<char>,
)
    requires
        keys_above(e, x),
        text_lt(x, k),
    ensures
        keys_above(obj_set(e, k, v), x),
    decreases e.len(),
{
    let r = obj_set(e, k, v);
    if e.len() == 0 {
    } else if e[0].0 == k {
        assert forall|j: int| 0 <= j < r.len() implies text_lt(x, #[trigger] r[j].0) by {
            if j > 0 {
                assert(r[j] == e[j]);
            }
        }
    } else if text_lt(k, e[0].0) {
        assert forall|j: int| 0 <= j < r.len() implies text_lt(x, #[trigger] r[j].0) by {
            if j > 0 {
                assert(r[j] == e[j - 1]);
            }
        }
    } else {
        assert(keys_above(e.drop_first(), x)) by {
            assert forall|j: int| 0 <= j < e.drop_first().len() implies text_lt(
                x,
                #[trigger] e.drop_first()[j].0,
            ) by {
                assert(e.drop_first()[j] == e[j + 1]);
            }
        }
        lemma_obj_set_above(e.drop_first(), k, v, x);
        let rest = obj_set(e.drop_first(), k, v);
        assert forall|j: int| 0 <= j < r.len() implies text_lt(x, #[trigger] r[j].0) by {
            if j > 0 {
                assert(r[j] == rest[j - 1]);
            }
        }
    }
}

/// Writing a key into sorted entries keeps them sorted, and keeps every value
/// well-formed when the new one is.
pub proof fn lemma_obj_set_wf(e: Seq<(Seq<char>, JsonView)>, k: Seq<char>, v: JsonView)
    requires
        keys_sorted(e),
        forall|i: int| 0 <= i < e.len() ==> (#[trigger] e[i]).1.wf(),
        v.wf(),
    ensures
        keys_sorted(obj_set(e, k, v)),
        forall|i: int|
            0 <= i < obj_set(e, k, v).len() ==> (#[trigger] obj_set(e, k, v)[i]).1.wf(),
    decreases e.len(),
{
    let r = obj_set(e, k, v);
    if e.len() == 0 {
    } else if e[0].0 == k {
        assert forall|a: int, b: int| 0 <= a < b < r.len() implies text_lt(
            #[trigger] r[a].0,
            #[trigger] r[b].0,
        ) by {
            assert(r[b] == e[b]);
            if a > 0 {
                assert(r[a] == e[a]);
            }
        }
        assert forall|i: int| 0 <= i < r.len() implies (#[trigger] r[i]).1.wf() by {
            if i > 0 {
                assert(r[i] == e[i]);
            }
        }
    } else if text_lt(k, e[0].0) {
        assert forall|a: int, b: int| 0 <= a < b < r.len() implies text_lt(
            #[trigger] r[a].0,
            #[trigger] r[b].0,
        ) by {
            assert(r[b] == e[b - 1]);
            if a > 0 {
                assert(r[a] == e[a - 1]);
            } else if b > 1 {
                lemma_text_lt_transitive(k, e[0].0, e[b - 1].0);
            }
        }
        assert forall|i: int| 0 <= i < r.len() implies (#[trigger] r[i]).1.wf() by {
            if i > 0 {
                assert(r[i] == e[i - 1]);
            }
        }
    } else {
        lemma_text_lt_total(k, e[0].0);
        lemma_keys_sorted_drop_first(e);
        assert forall|i: int| 0 <= i < e.drop_first().len() implies (
        #[trigger] e.drop_first()[i]).1.wf() by {
            assert(e.drop_first()[i] == e[i + 1]);
        }
        lemma_obj_set_wf(e.drop_first(), k, v);
        lemma_obj_set_above(e.drop_first(), k, v, e[0].0);
        let rest = obj_set(e.drop_first(), k, v);
        assert forall|a: int, b: int| 0 <= a < b < r.len() implies text_lt(
            #[trigger] r[a].0,
            #[trigger] r[b].0,
        ) by {
            assert(r[b] == rest[b - 1]);
            if a > 0 {
                assert(r[a] == rest[a - 1]);
            }
        }
        assert forall|i: int| 0 <= i < r.len() implies (#[trigger] r[i]).1.wf() by {
            if i > 0 {
                assert(r[i] == rest[i - 1]);
            }
        }
    }
}

/// Removing a key from sorted entries keeps them sorted and well-formed.
pub proof fn lemma_obj_remove_wf(e: Seq<(Seq<char>, JsonView)>, k: Seq<char>)
    requires
        keys_sorted(e),
        forall|i: int| 0 <= i < e.len() ==> (#[trigger] e[i]).1.wf(),
    ensures
        keys_sorted(obj_remove(e, k)),
        forall|i: int|
            0 <= i < obj_remove(e, k).len() ==> (#[trigger] obj_remove(e, k)[i]).1.wf(),
        forall|x: Seq<char>| keys_above(e, x) ==> keys_above(obj_remove(e, k), x),
    decreases e.len(),
{
    let r = obj_remove(e, k);
    if e.len() == 0 {
    } else {
        lemma_keys_sorted_drop_first(e);
        assert forall|i: int| 0 <= i < e.drop_first().len() implies (
        #[trigger] e.drop_first()[i]).1.wf() by {
            assert(e.drop_first()[i] == e[i + 1]);
        }
        if e[0].0 == k {
            assert forall|x: Seq<char>| keys_above(e, x) implies keys_above(r, x) by {
                assert forall|j: int| 0 <= j < r.len() implies text_lt(x, #[trigger] r[j].0) by {
                    assert(r[j] == e[j + 1]);
                }
            }
        } else {
            lemma_obj_remove_wf(e.drop_first(), k);
            let rest = obj_remove(e.drop_first(), k);
            assert forall|a: int, b: int| 0 <= a < b < r.len() implies text_lt(
                #[trigger] r[a].0,
                #[trigger] r[b].0,
            ) by {
                assert(r[b] == rest[b - 1]);
                if a > 0 {
                    assert(r[a] == rest[a - 1]);
                }
            }
            assert forall|i: int| 0 <= i < r.len() implies (#[trigger] r[i]).1.wf() by {
                if i > 0 {
                    assert(r[i] == rest[i - 1]);
                }
            }
            assert forall|x: Seq<char>| keys_above(e, x) implies keys_above(r, x) by {
                assert(keys_above(e.drop_first(), x)) by {
                    assert forall|j: int| 0 <= j < e.drop_first().len() implies text_lt(
                        x,
                        #[trigger] e.drop_first()[j].0,
                    ) by {
                        assert(e.drop_first()[j] == e[j + 1]);
                    }
                }
                assert forall|j: int| 0 <= j < r.len() implies text_lt(x, #[trigger] r[j].0) by {
                    if j > 0 {
                        assert(r[j] == rest[j - 1]);
                    }
                }
            }
        }
    }
}

/// Writing a well-formed value under a key of a well-formed value keeps it well-formed.
pub proof fn lemma_set_key_wf(v: JsonView, k: Seq<char>, x: JsonView)
    requires
        v.wf(),
        x.wf(),
    ensures
        v.set_key(k, x).wf(),
{
    if let JsonView::Object(e) = v {
        lemma_obj_set_wf(e, k, x);
    }
}

/// What a well-formed object holds under a key is well-formed.
pub proof fn lemma_get_key_wf(v: JsonView, k: Seq<char>)
    requires
        v.wf(),
        v.get_key(k) is Some,
    ensures
        v.get_key(k)->0.wf(),
{
    if let JsonView::Object(e) = v {
        lemma_obj_get_some(e, k);
    }
}

/// Removing a key keeps a well-formed value well-formed.
pub proof fn lemma_remove_key_wf(v: JsonView, k: Seq<char>)
    requires
        v.wf(),
    ensures
        v.remove_key(k).wf(),
{
    if let JsonView::Object(e) = v {
        lemma_obj_remove_wf(e, k);
    }
}

/// Appending a well-formed item to a well-formed array keeps it well-formed.
pub proof fn lemma_push_wf(v: JsonView, x: JsonView)
    requires
        v.wf(),
        v.is_array(),
        x.wf(),
    ensures
        JsonView::Array(v.items().push(x)).wf(),
{
    let a = v.items().push(x);
    assert forall|i: int| 0 <= i < a.len() implies (#[trigger] a[i]).wf() by {
        if i < v.items().len() {
            assert(a[i] == v.items()[i]);
        }
    }
}

/// Each item of a well-formed array is well-formed.
pub proof fn lemma_item_wf(v: JsonView, i: int)
    requires
        v.wf(),
        v.is_array(),
        0 <= i < v.items().len(),
    ensures
        v.items()[i].wf(),
{
}

/// Removing an item keeps a well-formed array well-formed.
pub proof fn lemma_remove_at_wf(v: JsonView, i: int)
    requires
        v.wf(),
        v.is_array(),
        0 <= i < v.items().len(),
    ensures
        JsonView::Array(v.items().remove(i)).wf(),
{
    let a = v.items().remove(i);
    assert forall|j: int| 0 <= j < a.len() implies (#[trigger] a[j]).wf() by {
        if j < i {
            assert(a[j] == v.items()[j]);
        } else {
            assert(a[j] == v.items()[j + 1]);
        }
    }
}

impl Clone for JsonValue {
    /// A copy of the whole value, all the way down.
    fn clone(&self) -> (r: Self)
        ensures
            r@ == self@,
        decreases self,
    {
        match self {
            JsonValue::Null => JsonValue::Null,
            JsonValue::Bool(b) => JsonValue::Bool(*b),
            JsonValue::Number(n) => JsonValue::Number(*n),
            JsonValue::Str(s) => JsonValue::Str(s.clone()),
            JsonValue::Array(items) => {
                let mut out: Vec<JsonValue> = Vec::new();
                let mut i: usize = 0;
                proof {
                    assert forall|j: int| 0 <= j < items.len() implies decreases_to!(self => items@[j]) by {
                        assert(decreases_to!(self => items));
                    }
                }
                while i < items.len()
                    invariant
                        forall|j: int| 0 <= j < items.len() ==> decreases_to!(self => items@[j]),
                        i <= items.len(),
                        out.len() == i,
                        forall|j: int| 0 <= j < i ==> (#[trigger] out@[j])@ == items@[j]@,
                    decreases items.len() - i,
                {
                    let c = items[i].clone();
                    out.push(c);
                    i = i + 1;
                }
                proof {
                    lemma_view_items(items@);
                    lemma_view_items_ext(out@, view_items(items@));
                }
                JsonValue::Array(out)
            },
            JsonValue::Object(entries) => {
                let mut out: Vec<(String, JsonValue)> = Vec::new();
                let mut i: usize = 0;
                proof {
                    assert forall|j: int| 0 <= j < entries.len() implies decreases_to!(self => entries@[j].1) by {
                        assert(decreases_to!(self => entries));
                    }
                }
                while i < entries.len()
                    invariant
                        forall|j: int| 0 <= j < entries.len() ==> decreases_to!(self => entries@[j].1),
                        i <= entries.len(),
                        out.len() == i,
                        forall|j: int|
                            0 <= j < i ==> (#[trigger] out@[j]).0@ == entries@[j].0@ && out@[j].1@
                                == entries@[j].1@,
                    decreases entries.len() - i,
                {
                    let k = entries[i].0.clone();
                    let c = entries[i].1.clone();
                    out.push((k, c));
                    i = i + 1;
                }
                proof {
                    lemma_view_entries(entries@);
                    lemma_view_entries_ext(out@, view_entries(entries@));
                }
                JsonValue::Object(out)
            },
        }
    }
}

/// The position of the entry with key `key`, if there is one.
pub fn find_entry(entries: &Vec<(String, JsonValue)>, key: &str) -> (r: Option<usize>)
    ensures
        match r {
            Some(i) => i < entries.len() && entries@[i as int].0@ == key@ && obj_get(
                view_entries(entries@),
                key@,
            ) == Some(entries@[i as int].1@) && forall|j: int|
                0 <= j < i ==> (#[trigger] entries@[j]).0@ != key@,
            None => obj_get(view_entries(entries@), key@) is None,
        },
{
    let ghost e = view_entries(entries@);
    proof {
        lemma_view_entries(entries@);
        assert(e.skip(0) =~= e);
    }
    let mut i: usize = 0;
    while i < entries.len()
        invariant
            e == view_entries(entries@),
            e.len() == entries.len(),
            forall|j: int| 0 <= j < e.len() ==> #[trigger] e[j] == (entries@[j].0@, entries@[j].1@),
            i <= entries.len(),
            obj_get(e, key@) == obj_get(e.skip(i as int), key@),
            forall|j: int| 0 <= j < i ==> (#[trigger] entries@[j]).0@ != key@,
        decreases entries.len() - i,
    {
        let c = compare_text(entries[i].0.as_str(), key);
        if c == TextOrder::Equal {
            assert(e.skip(i as int)[0] == e[i as int]);
            return Some(i);
        }
        assert(e.skip(i as int).drop_first() =~= e.skip(i + 1));
        i = i + 1;
    }
    assert(e.skip(i as int).len() == 0);
    None
}

impl JsonValue {
    /// The empty object.
    pub fn new_object() -> (r: JsonValue)
        ensures
            r@ == JsonView::Object(Seq::empty()),
    {
        let r = JsonValue::Object(Vec::new());
        proof {
            lemma_view_entries(Seq::<(String, JsonValue)>::empty());
            assert(view_entries(Seq::<(String, JsonValue)>::empty()) =~= Seq::empty());
        }
        r
    }

    /// The empty array.
    pub fn new_array() -> (r: JsonValue)
        ensures
            r@ == JsonView::Array(Seq::empty()),
    {
        let r = JsonValue::Array(Vec::new());
        proof {
            lemma_view_items(Seq::<JsonValue>::empty());
            assert(view_items(Seq::<JsonValue>::empty()) =~= Seq::empty());
        }
        r
    }

    /// Whether this is an object.
    pub fn is_object(&self) -> (r: bool)
        ensures
            r == self@.is_object(),
    {
        match self {
            JsonValue::Object(_) => true,
            _ => false,
        }
    }

    /// Whether this is an array.
    pub fn is_array(&self) -> (r: bool)
        ensures
            r == self@.is_array(),
    {
        match self {
            JsonValue::Array(_) => true,
            _ => false,
        }
    }

    /// Whether this is null, an empty string, an empty array or an empty object.
    pub fn is_blank(&self) -> (r: bool)
        ensures
            r == self@.is_blank(),
    {
        proof {
            match self {
                JsonValue::Array(items) => lemma_view_items(items@),
                JsonValue::Object(entries) => lemma_view_entries(entries@),
                _ => {},
            }
        }
        match self {
            JsonValue::Null => true,
            JsonValue::Str(s) => s.as_str().is_empty(),
            JsonValue::Array(items) => items.len() == 0,
            JsonValue::Object(entries) => entries.len() == 0,
            _ => false,
        }
    }

    /// The name of the value's kind: `Null`, `Bool`, `Number`, `String`,
    /// `Array` or `Object`.
    pub fn kind_name(&self) -> (r: String)
        ensures
            r@ == self@.kind_name(),
    {
        match self {
            JsonValue::Null => String::from_str("Null"),
            JsonValue::Bool(_) => String::from_str("Bool"),
            JsonValue::Number(_) => String::from_str("Number"),
            JsonValue::Str(_) => String::from_str("String"),
            JsonValue::Array(_) => String::from_str("Array"),
            JsonValue::Object(_) => String::from_str("Object"),
        }
    }

    /// A copy of the value under `key` of an object; `None` for a missing key
    /// or for any other value.
    pub fn get_key(&self, key: &str) -> (r: Option<JsonValue>)
        ensures
            match r {
                Some(v) => self@.get_key(key@) == Some(v@),
                None => self@.get_key(key@) is None,
            },
    {
        match self {
            JsonValue::Object(entries) => match find_entry(entries, key) {
                Some(i) => Some(entries[i].1.clone()),
                None => None,
            },
            _ => None,
        }
    }

    /// Appends `value` to an array and reports `true`; leaves any other value as
    /// it is and reports `false`.
    pub fn push_item(&mut self, value: JsonValue) -> (ok: bool)
        ensures
            ok == old(self)@.is_array(),
            ok ==> final(self)@ == JsonView::Array(old(self)@.items().push(value@)),
            !ok ==> final(self)@ == old(self)@,
    {
        let mut taken = JsonValue::Null;
        std::mem::swap(self, &mut taken);
        match taken {
            JsonValue::Array(mut items) => {
                let ghost before = items@;
                let ghost v = value@;
                items.push(value);
                proof {
                    lemma_view_items(before);
                    lemma_view_items_ext(items@, view_items(before).push(v));
                }
                *self = JsonValue::Array(items);
                true
            },
            other => {
                *self = other;
                false
            },
        }
    }

    /// Takes the entry with key `key` out of an object: `Some` of what it
    /// held, or `Some(None)` for a missing key; `None` for any other value,
    /// which stays as it is.
    pub fn take_key(&mut self, key: &str) -> (r: Option<Option<JsonValue>>)
        ensures
            (r is Some) == old(self)@.is_object(),
            final(self)@ == old(self)@.remove_key(key@),
            r matches Some(Some(v)) ==> old(self)@.get_key(key@) == Some(v@),
            r matches Some(None) ==> old(self)@.get_key(key@) is None,
    {
        let mut taken = JsonValue::Null;
        std::mem::swap(self, &mut taken);
        match taken {
            JsonValue::Object(mut entries) => {
                let ghost e = view_entries(entries@);
                let found = find_entry(&entries, key);
                match found {
                    Some(i) => {
                        let ghost before = entries@;
                        let (_k, v) = entries.remove(i);
                        proof {
                            lemma_view_entries(before);
                            lemma_obj_remove_at(e, key@, i as int);
                            lemma_view_entries_ext(entries@, e.take(i as int) + e.skip(i + 1));
                        }
                        *self = JsonValue::Object(entries);
                        Some(Some(v))
                    },
                    None => {
                        proof {
                            lemma_obj_get_none(e, key@);
                            lemma_obj_remove_absent(e, key@);
                        }
                        *self = JsonValue::Object(entries);
                        Some(None)
                    },
                }
            },
            other => {
                *self = other;
                None
            },
        }
    }

    /// Takes the item at `index` out of an array: `Some(Some(item))`, or
    /// `Some(None)` when the index is past the end; `None` for any other
    /// value, which stays as it is.
    pub fn take_at(&mut self, index: usize) -> (r: Option<Option<JsonValue>>)
        ensures
            (r is Some) == old(self)@.is_array(),
            r matches Some(Some(v)) ==> index < old(self)@.items().len() && v@ == old(
                self,
            )@.items()[index as int] && final(self)@ == JsonView::Array(
                old(self)@.items().remove(index as int),
            ),
            r matches Some(None) ==> index >= old(self)@.items().len() && final(self)@ == old(
                self,
            )@,
            r is None ==> final(self)@ == old(self)@,
    {
        let mut taken = JsonValue::Null;
        std::mem::swap(self, &mut taken);
        match taken {
            JsonValue::Array(mut items) => {
                proof {
                    lemma_view_items(items@);
                }
                if index < items.len() {
                    let ghost before = items@;
                    let v = items.remove(index);
                    proof {
                        lemma_view_items_ext(items@, view_items(before).remove(index as int));
                    }
                    *self = JsonValue::Array(items);
                    Some(Some(v))
                } else {
                    *self = JsonValue::Array(items);
                    Some(None)
                }
            },
            other => {
                *self = other;
                None
            },
        }
    }

    /// Copies of the items of an array; `None` for any other value.
    pub fn items_copy(&self) -> (r: Option<Vec<JsonValue>>)
        ensures
            (r is Some) == self@.is_array(),
            r matches Some(v) ==> view_items(v@) == self@.items(),
    {
        match self {
            JsonValue::Array(items) => {
                let mut out: Vec<JsonValue> = Vec::new();
                let mut i: usize = 0;
                while i < items.len()
                    invariant
                        i <= items.len(),
                        out.len() == i,
                        forall|j: int| 0 <= j < i ==> (#[trigger] out@[j])@ == items@[j]@,
                    decreases items.len() - i,
                {
                    out.push(items[i].clone());
                    i = i + 1;
                }
                proof {
                    lemma_view_items(items@);
                    lemma_view_items_ext(out@, view_items(items@));
                }
                Some(out)
            },
            _ => None,
        }
    }

    /// Copies of the entries of an object, in key order; `None` for any other
    /// value.
    pub fn entries_copy(&self) -> (r: Option<Vec<(String, JsonValue)>>)
        ensures
            (r is Some) == self@.is_object(),
            r matches Some(v) ==> view_entries(v@) == self@.entries(),
    {
        match self {
            JsonValue::Object(entries) => {
                let mut out: Vec<(String, JsonValue)> = Vec::new();
                let mut i: usize = 0;
                while i < entries.len()
                    invariant
                        i <= entries.len(),
                        out.len() == i,
                        forall|j: int|
                            0 <= j < i ==> (#[trigger] out@[j]).0@ == entries@[j].0@ && out@[j].1@
                                == entries@[j].1@,
                    decreases entries.len() - i,
                {
                    out.push((entries[i].0.clone(), entries[i].1.clone()));
                    i = i + 1;
                }
                proof {
                    lemma_view_entries(entries@);
                    lemma_view_entries_ext(out@, view_entries(entries@));
                }
                Some(out)
            },
            _ => None,
        }
    }

    /// Whether the value is well-formed: every number normalized, every
    /// object with strictly increasing keys, all the way down.
    pub fn is_well_formed(&self) -> (r: bool)
        ensures
            r == self@.wf(),
        decreases self,
    {
        match self {
            JsonValue::Number(n) => match n {
                JsonNumber::PosInt(_) => true,
                JsonNumber::NegInt(i) => *i < 0,
                JsonNumber::Float(bits) => crate::number::is_finite_bits(*bits),
            },
            JsonValue::Array(items) => {
                proof {
                    lemma_view_items(items@);
                }
                let ghost iv = view_items(items@);
                let mut i: usize = 0;
                while i < items.len()
                    invariant
                        iv == view_items(items@),
                        iv.len() == items.len(),
                        forall|j: int| 0 <= j < items.len() ==> #[trigger] iv[j] == items@[j]@,
                        forall|j: int| 0 <= j < items.len() ==> decreases_to!(self => items@[j]),
                        self@ == JsonView::Array(iv),
                        i <= items.len(),
                        forall|j: int| 0 <= j < i ==> (#[trigger] iv[j]).wf(),
                    decreases items.len() - i,
                {
                    if !items[i].is_well_formed() {
                        assert(iv[i as int] == items@[i as int]@);
                        assert(!iv[i as int].wf());
                        proof {
                            if self@.wf() {
                                lemma_item_wf(self@, i as int);
                            }
                        }
                        return false;
                    }
                    i = i + 1;
                }
                true
            },
            JsonValue::Object(entries) => {
                proof {
                    lemma_view_entries(entries@);
                }
                let ghost ev = view_entries(entries@);
                let mut i: usize = 0;
                while i < entries.len()
                    invariant
                        ev == view_entries(entries@),
                        ev.len() == entries.len(),
                        forall|j: int|
                            0 <= j < entries.len() ==> #[trigger] ev[j] == (
                                entries@[j].0@,
                                entries@[j].1@,
                            ),
                        forall|j: int| 0 <= j < entries.len() ==> decreases_to!(self => entries@[j].1),
                        self@ == JsonView::Object(ev),
                        i <= entries.len(),
                        forall|j: int| 0 <= j < i ==> (#[trigger] ev[j]).1.wf(),
                        forall|a: int, b: int|
                            0 <= a < b < i ==> text_lt(#[trigger] ev[a].0, #[trigger] ev[b].0),
                    decreases entries.len() - i,
                {
                    if i > 0 {
                        let c = compare_text(entries[i - 1].0.as_str(), entries[i].0.as_str());
                        if c != TextOrder::Less {
                            assert(!text_lt(ev[i - 1].0, ev[i as int].0));
                            assert(!keys_sorted(ev));
                            return false;
                        }
                        proof {
                            assert forall|a: int| 0 <= a < i implies text_lt(
                                #[trigger] ev[a].0,
                                ev[i as int].0,
                            ) by {
                                if a < i - 1 {
                                    lemma_text_lt_transitive(ev[a].0, ev[i - 1].0, ev[i as int].0);
                                }
                            }
                        }
                    }
                    if !entries[i].1.is_well_formed() {
                        assert(!ev[i as int].1.wf());
                        return false;
                    }
                    i = i + 1;
                }
                true
            },
            _ => true,
        }
    }

    /// Writes `value` under `key` of an object and reports `true`; leaves any
    /// other value as it is and reports `false`.
    pub fn set_key(&mut self, key: &str, mut value: JsonValue) -> (ok: bool)
        ensures
            ok == old(self)@.is_object(),
            final(self)@ == old(self)@.set_key(key@, value@),
    {
        let mut taken = JsonValue::Null;
        std::mem::swap(self, &mut taken);
        match taken {
            JsonValue::Object(mut entries) => {
                let ghost e = view_entries(entries@);
                let ghost v = value@;
                proof {
                    lemma_view_entries(entries@);
                    assert(e.take(0) + e.skip(0) =~= e);
                }
                let mut i: usize = 0;
                let mut placed = false;
                while i < entries.len() && !placed
                    invariant
                        !placed ==> e.len() == entries.len(),
                        !placed ==> forall|j: int| 0 <= j < e.len() ==> #[trigger] e[j] == (entries@[j].0@, entries@[j].1@),
                        i <= entries.len(),
                        !placed ==> obj_set(e, key@, v) == e.take(i as int) + obj_set(e.skip(i as int), key@, v),
                        !placed ==> value@ == v,
                        placed ==> view_entries(entries@) == obj_set(e, key@, v),
                    decreases (if placed { 0int } else { entries.len() - i + 1 }),
                {
                    let c = compare_text(key, entries[i].0.as_str());
                    assert(e.skip(i as int)[0] == e[i as int]);
                    if c == TextOrder::Equal {
                        let k = String::from_str(key);
                        let ghost old_entries = entries@;
                        let mut placeholder = JsonValue::Null;
                        std::mem::swap(&mut placeholder, &mut value);
                        entries.set(i, (k, placeholder));
                        proof {
                            assert(e.skip(i as int).drop_first() =~= e.skip(i + 1));
                            lemma_view_entries_ext(
                                entries@,
                                e.take(i as int) + (seq![(key@, v)] + e.skip(i + 1)),
                            );
                        }
                        placed = true;
                    } else if c == TextOrder::Less {
                        let k = String::from_str(key);
                        let mut placeholder = JsonValue::Null;
                        std::mem::swap(&mut placeholder, &mut value);
                        entries.insert(i, (k, placeholder));
                        proof {
                            lemma_view_entries_ext(
                                entries@,
                                e.take(i as int) + (seq![(key@, v)] + e.skip(i as int)),
                            );
                        }
                        placed = true;
                    } else {
                        proof {
                            assert(e.skip(i as int).drop_first() =~= e.skip(i + 1));
                            assert(e.take(i + 1) =~= e.take(i as int).push(e[i as int]));
                            assert(e.take(i as int) + obj_set(e.skip(i as int), key@, v) =~= e.take(i + 1) + obj_set(e.skip(i + 1), key@, v));
                        }
                        i = i + 1;
                    }
                }
                if !placed {
                    let k = String::from_str(key);
                    entries.push((k, value));
                    proof {
                        assert(e.skip(i as int).len() == 0);
                        assert(e.take(i as int) =~= e);
                        lemma_view_entries_ext(entries@, e + seq![(key@, v)]);
                    }
                }
                *self = JsonValue::Object(entries);
                true
            },
            other => {
                *self = other;
                false
            },
        }
    }
}

} // verus!

use vstd::prelude::*;
use crate::path::texts;
use crate::value::{JsonValue, JsonView, lemma_get_key_wf, lemma_set_key_wf};

verus! {

/// The value reached from `v` by following the keys in `parts`, one object
/// level per key; nothing once a key is missing or a value on the way is not
/// an object.
pub open spec fn navigate(v: JsonView, parts: Seq<Seq<char>>) -> Option<JsonView>
    decreases parts.len(),
{
    if parts.len() == 0 {
        Some(v)
    } else {
        match v.get_key(parts[0]) {
            Some(c) => navigate(c, parts.drop_first()),
            None => None,
        }
    }
}

/// The empty object.
pub open spec fn empty_object() -> JsonView {
    JsonView::Object(Seq::empty())
}

/// The object `v` after writing `x` at the path `parts` (at least one key):
/// every intermediate value that is missing or not an object becomes an
/// empty object first.
pub open spec fn path_set(v: JsonView, parts: Seq<Seq<char>>, x: JsonView) -> JsonView
    decreases parts.len(),
{
    if parts.len() <= 1 {
        v.set_key(parts[0], x)
    } else {
        let child = match v.get_key(parts[0]) {
            Some(c) => if c.is_object() {
                c
            } else {
                empty_object()
            },
            None => empty_object(),
        };
        v.set_key(parts[0], path_set(child, parts.drop_first(), x))
    }
}

/// Writing along a path in the manner of the shared dynamic value: a root
/// that is not an object is first replaced by an empty object, a missing
/// intermediate value becomes an empty object, and the last key is written
/// only into an object.  The result is the value afterwards and whether the
/// last write happened; when it did not, the value keeps the replacements
/// made on the way down.
pub open spec fn loose_path_set(v: JsonView, parts: Seq<Seq<char>>, x: JsonView) -> (
    JsonView,
    bool,
)
    decreases parts.len(),
{
    if parts.len() <= 1 {
        if v.is_object() {
            (v.set_key(parts[0], x), true)
        } else {
            (v, false)
        }
    } else {
        let base = if v.is_object() {
            v
        } else {
            empty_object()
        };
        let nested = match base.get_key(parts[0]) {
            Some(c) => c,
            None => empty_object(),
        };
        let (n2, ok) = loose_path_set(nested, parts.drop_first(), x);
        if ok {
            (base.set_key(parts[0], n2), true)
        } else {
            (base, false)
        }
    }
}

/// What a path leads to inside a well-formed value is well-formed.
pub proof fn lemma_navigate_wf(v: JsonView, parts: Seq<Seq<char>>)
    requires
        v.wf(),
        navigate(v, parts) is Some,
    ensures
        navigate(v, parts)->0.wf(),
    decreases parts.len(),
{
    if parts.len() > 0 {
        lemma_get_key_wf(v, parts[0]);
        lemma_navigate_wf(v.get_key(parts[0])->0, parts.drop_first());
    }
}

/// Writing a well-formed value along a path keeps a well-formed value well-formed.
pub proof fn lemma_path_set_wf(v: JsonView, parts: Seq<Seq<char>>, x: JsonView)
    requires
        v.wf(),
        x.wf(),
        parts.len() >= 1,
    ensures
        path_set(v, parts, x).wf(),
    decreases parts.len(),
{
    if parts.len() <= 1 {
        lemma_set_key_wf(v, parts[0], x);
    } else {
        let child = match v.get_key(parts[0]) {
            Some(c) => if c.is_object() {
                c
            } else {
                empty_object()
            },
            None => empty_object(),
        };
        if v.get_key(parts[0]) is Some {
            lemma_get_key_wf(v, parts[0]);
        }
        lemma_path_set_wf(child, parts.drop_first(), x);
        lemma_set_key_wf(v, parts[0], path_set(child, parts.drop_first(), x));
    }
}

/// Writing in the manner of the shared dynamic value keeps a well-formed value well-formed.
pub proof fn lemma_loose_path_set_wf(v: JsonView, parts: Seq<Seq<char>>, x: JsonView)
    requires
        v.wf(),
        x.wf(),
        parts.len() >= 1,
    ensures
        loose_path_set(v, parts, x).0.wf(),
    decreases parts.len(),
{
    if parts.len() <= 1 {
        lemma_set_key_wf(v, parts[0], x);
    } else {
        let base = if v.is_object() {
            v
        } else {
            empty_object()
        };
        let nested = match base.get_key(parts[0]) {
            Some(c) => c,
            None => empty_object(),
        };
        if base.get_key(parts[0]) is Some {
            lemma_get_key_wf(base, parts[0]);
        }
        lemma_loose_path_set_wf(nested, parts.drop_first(), x);
        lemma_set_key_wf(base, parts[0], loose_path_set(nested, parts.drop_first(), x).0);
    }
}

impl JsonValue {
    /// The value at the path given by `parts[start..]`, as `navigate` states.
    pub(crate) fn navigate_from(&self, parts: &Vec<String>, start: usize) -> (r: Option<JsonValue>)
        requires
            start <= parts.len(),
        ensures
            match r {
                Some(x) => navigate(self@, texts(parts@).skip(start as int)) == Some(x@),
                None => navigate(self@, texts(parts@).skip(start as int)) is None,
            },
        decreases parts.len() - start,
    {
        let ghost ps = texts(parts@).skip(start as int);
        if start == parts.len() {
            assert(ps.len() == 0);
            return Some(self.clone());
        }
        proof {
            assert(ps[0] == parts@[start as int]@);
            assert(ps.drop_first() =~= texts(parts@).skip(start + 1));
        }
        match self.get_key(parts[start].as_str()) {
            Some(child) => child.navigate_from(parts, start + 1),
            None => None,
        }
    }

    /// Writes `value` at the path `parts[start..]` of an object and reports
    /// `true`; leaves any other value as it is and reports `false`.
    pub(crate) fn set_path_from(&mut self, parts: &Vec<String>, start: usize, value: JsonValue) -> (ok:
        bool)
        requires
            start < parts.len(),
        ensures
            ok == old(self)@.is_object(),
            final(self)@ == path_set(old(self)@, texts(parts@).skip(start as int), value@),
        decreases parts.len() - start,
    {
        let ghost ps = texts(parts@).skip(start as int);
        proof {
            assert(ps[0] == parts@[start as int]@);
            assert(ps.drop_first() =~= texts(parts@).skip(start + 1));
        }
        if start + 1 == parts.len() {
            return self.set_key(parts[start].as_str(), value);
        }
        if !self.is_object() {
            return false;
        }
        let key = parts[start].as_str();
        let mut child = match self.get_key(key) {
            Some(c) => if c.is_object() {
                c
            } else {
                JsonValue::new_object()
            },
            None => JsonValue::new_object(),
        };
        child.set_path_from(parts, start + 1, value);
        self.set_key(key, child);
        true
    }

    /// Writes `value` at the path `parts[start..]` in the manner of
    /// `loose_path_set`.
    pub(crate) fn loose_set_path_from(&mut self, parts: &Vec<String>, start: usize, value: JsonValue) -> (ok:
        bool)
        requires
            start < parts.len(),
        ensures
            (final(self)@, ok) == loose_path_set(old(self)@, texts(parts@).skip(start as int), value@),
        decreases parts.len() - start,
    {
        let ghost ps = texts(parts@).skip(start as int);
        proof {
            assert(ps[0] == parts@[start as int]@);
            assert(ps.drop_first() =~= texts(parts@).skip(start + 1));
        }
        if start + 1 == parts.len() {
            return self.set_key(parts[start].as_str(), value);
        }
        if !self.is_object() {
            *self = JsonValue::new_object();
        }
        let key = parts[start].as_str();
        let mut nested = match self.get_key(key) {
            Some(c) => c,
            None => JsonValue::new_object(),
        };
        let ok = nested.loose_set_path_from(parts, start + 1, value);
        if ok {
            self.set_key(key, nested);
        }
        ok
    }
}

} // verus!

use vstd::prelude::*;
use crate::number::JsonNumber;
use crate::sampling::{array_sample, object_sample, array_sample_positions, object_sample_positions};
use crate::value::{JsonValue, JsonView, lemma_view_items, lemma_view_entries, view_items, view_entries};

verus! {

/// What a value's hash is made of, in the order the hasher takes it in: a
/// piece of text, a flag, a count, a number (hashed by its JSON text), the
/// hash of an array item, or a key followed by the hash of its value.
pub enum HashStepView {
    Text(Seq<char>),
    Flag(bool),
    Count(nat),
    Number(JsonNumber),
    Item(Seq<HashStepView>),
    Entry(Seq<char>, Seq<HashStepView>),
}

/// One step of a hash plan; `Item` and `Entry` carry the plan of a nested
/// value, whose hash goes into the hasher as a `u64`.
pub enum HashStep {
    Text(String),
    Flag(bool),
    Count(usize),
    Number(JsonNumber),
    Item(Vec<HashStep>),
    Entry(String, Vec<HashStep>),
}

pub open spec fn view_steps(s: Seq<HashStep>) -> Seq<HashStepView>
    decreases s,
{
    if s.len() == 0 {
        Seq::empty()
    } else {
        seq![s[0].view()].add(view_steps(s.skip(1)))
    }
}

impl View for HashStep {
    type V = HashStepView;

    open spec fn view(&self) -> HashStepView
        decreases self,
    {
        match self {
            HashStep::Text(t) => HashStepView::Text(t@),
            HashStep::Flag(b) => HashStepView::Flag(*b),
            HashStep::Count(n) => HashStepView::Count(*n as nat),
            HashStep::Number(n) => HashStepView::Number(*n),
            HashStep::Item(p) => HashStepView::Item(view_steps(p@)),
            HashStep::Entry(k, p) => HashStepView::Entry(k@, view_steps(p@)),
        }
    }
}

pub proof fn lemma_view_steps(s: Seq<HashStep>)
    ensures
        view_steps(s).len() == s.len(),
        forall|i: int| 0 <= i < s.len() ==> #[trigger] view_steps(s)[i] == s[i]@,
    decreases s.len(),
{
    if s.len() > 0 {
        assert(view_steps(s) == seq![s[0]@].add(view_steps(s.skip(1))));
        lemma_view_steps(s.skip(1));
        assert forall|i: int| 0 <= i < s.len() implies #[trigger] view_steps(s)[i] == s[i]@ by {
            if i > 0 {
                assert(s.skip(1)[i - 1] == s[i]);
            }
        }
    }
}

/// The plan of a value's hash.  The value's kind goes first as text, then
/// its content: a flag, a number, a string, or, for an array, its length and
/// the hashes of the sampled items, for an object, its size and, for each
/// sampled entry in key order, the key and the hash of its value.
pub open spec fn hash_plan(v: JsonView) -> Seq<HashStepView>
    decreases v,
{
    match v {
        JsonView::Null => seq![HashStepView::Text("null"@)],
        JsonView::Bool(b) => seq![HashStepView::Text("bool"@), HashStepView::Flag(b)],
        JsonView::Number(n) => seq![HashStepView::Text("number"@), HashStepView::Number(n)],
        JsonView::Str(s) => seq![HashStepView::Text("string"@), HashStepView::Text(s)],
        JsonView::Array(items) => {
            let pos = array_sample(items.len());
            seq![HashStepView::Text("array"@), HashStepView::Count(items.len())] + Seq::new(
                pos.len(),
                |j: int|
                    if pos[j] < items.len() {
                        HashStepView::Item(hash_plan(items[pos[j] as int]))
                    } else {
                        HashStepView::Item(Seq::empty())
                    },
            )
        },
        JsonView::Object(e) => {
            let pos = object_sample(e.len());
            seq![HashStepView::Text("object"@), HashStepView::Count(e.len())] + Seq::new(
                pos.len(),
                |j: int|
                    if pos[j] < e.len() {
                        HashStepView::Entry(e[pos[j] as int].0, hash_plan(e[pos[j] as int].1))
                    } else {
                        HashStepView::Entry(Seq::empty(), Seq::empty())
                    },
            )
        },
    }
}

/// The plan of the hash of `v`, as `hash_plan` states it.
pub fn plan_of(v: &JsonValue) -> (r: Vec<HashStep>)
    ensures
        view_steps(r@) == hash_plan(v@),
    decreases v,
{
    let mut r: Vec<HashStep> = Vec::new();
    match v {
        JsonValue::Null => {
            r.push(HashStep::Text(String::from_str("null")));
        },
        JsonValue::Bool(b) => {
            r.push(HashStep::Text(String::from_str("bool")));
            r.push(HashStep::Flag(*b));
        },
        JsonValue::Number(n) => {
            r.push(HashStep::Text(String::from_str("number")));
            r.push(HashStep::Number(*n));
        },
        JsonValue::Str(s) => {
            r.push(HashStep::Text(String::from_str("string")));
            r.push(HashStep::Text(s.clone()));
        },
        JsonValue::Array(items) => {
            proof {
                lemma_view_items(items@);
            }
            let ghost iv = view_items(items@);
            let pos = array_sample_positions(items.len());
            let ghost ps = array_sample(items.len() as nat);
            proof {
                assert(pos@.len() == ps.len());
                assert forall|j: int| 0 <= j < pos.len() implies #[trigger] pos@[j] as nat
                    == ps[j] by {
                    assert(pos@.map_values(|i: usize| i as nat)[j] == pos@[j] as nat);
                }
            }
            r.push(HashStep::Text(String::from_str("array")));
            r.push(HashStep::Count(items.len()));
            let mut j: usize = 0;
            while j < pos.len()
                invariant
                    iv == view_items(items@),
                    iv.len() == items.len(),
                    forall|i: int| 0 <= i < items.len() ==> #[trigger] iv[i] == items@[i]@,
                    forall|i: int| 0 <= i < items.len() ==> decreases_to!(v => items@[i]),
                    v@ == JsonView::Array(iv),
                    ps == array_sample(items.len() as nat),
                    pos@.len() == ps.len(),
                    forall|k: int| 0 <= k < pos.len() ==> #[trigger] pos@[k] as nat == ps[k],
                    forall|k: int| 0 <= k < pos.len() ==> #[trigger] pos@[k] < items.len(),
                    j <= pos.len(),
                    r.len() == 2 + j,
                    r@[0]@ == HashStepView::Text("array"@),
                    r@[1]@ == HashStepView::Count(items.len() as nat),
                    forall|k: int|
                        0 <= k < j ==> #[trigger] r@[2 + k]@ == HashStepView::Item(
                            hash_plan(iv[ps[k] as int]),
                        ),
                decreases pos.len() - j,
            {
                let p = pos[j];
                let sub = plan_of(&items[p]);
                r.push(HashStep::Item(sub));
                j = j + 1;
            }
            proof {
                lemma_view_steps(r@);
                let expected = hash_plan(v@);
                assert(view_steps(r@) =~= expected) by {
                    assert forall|k: int| 2 <= k < r.len() implies #[trigger] view_steps(r@)[k]
                        == expected[k] by {
                        assert(r@[2 + (k - 2)]@ == HashStepView::Item(
                            hash_plan(iv[ps[k - 2] as int]),
                        ));
                    }
                }
            }
            return r;
        },
        JsonValue::Object(entries) => {
            proof {
                lemma_view_entries(entries@);
            }
            let ghost ev = view_entries(entries@);
            let pos = object_sample_positions(entries.len());
            let ghost ps = object_sample(entries.len() as nat);
            proof {
                assert(pos@.len() == ps.len());
                assert forall|j: int| 0 <= j < pos.len() implies #[trigger] pos@[j] as nat
                    == ps[j] by {
                    assert(pos@.map_values(|i: usize| i as nat)[j] == pos@[j] as nat);
                }
            }
            r.push(HashStep::Text(String::from_str("object")));
            r.push(HashStep::Count(entries.len()));
            let mut j: usize = 0;
            while j < pos.len()
                invariant
                    ev == view_entries(entries@),
                    ev.len() == entries.len(),
                    forall|i: int|
                        0 <= i < entries.len() ==> #[trigger] ev[i] == (
                            entries@[i].0@,
                            entries@[i].1@,
                        ),
                    forall|i: int| 0 <= i < entries.len() ==> decreases_to!(v => entries@[i].1),
                    v@ == JsonView::Object(ev),
                    ps == object_sample(entries.len() as nat),
                    pos@.len() == ps.len(),
                    forall|k: int| 0 <= k < pos.len() ==> #[trigger] pos@[k] as nat == ps[k],
                    forall|k: int| 0 <= k < pos.len() ==> #[trigger] pos@[k] < entries.len(),
                    j <= pos.len(),
                    r.len() == 2 + j,
                    r@[0]@ == HashStepView::Text("object"@),
                    r@[1]@ == HashStepView::Count(entries.len() as nat),
                    forall|k: int|
                        0 <= k < j ==> #[trigger] r@[2 + k]@ == HashStepView::Entry(
                            ev[ps[k] as int].0,
                            hash_plan(ev[ps[k] as int].1),
                        ),
                decreases pos.len() - j,
            {
                let p = pos[j];
                let sub = plan_of(&entries[p].1);
                r.push(HashStep::Entry(entries[p].0.clone(), sub));
                j = j + 1;
            }
            proof {
                lemma_view_steps(r@);
                let expected = hash_plan(v@);
                assert(view_steps(r@) =~= expected) by {
                    assert forall|k: int| 2 <= k < r.len() implies #[trigger] view_steps(r@)[k]
                        == expected[k] by {
                        assert(r@[2 + (k - 2)]@ == HashStepView::Entry(
                            ev[ps[k - 2] as int].0,
                            hash_plan(ev[ps[k - 2] as int].1),
                        ));
                    }
                }
            }
            return r;
        },
    }
    proof {
        lemma_view_steps(r@);
        assert(view_steps(r@) =~= hash_plan(v@));
    }
    r
}

} // verus!

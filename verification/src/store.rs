use vstd::prelude::*;
use crate::analysis::json_equiv;
use crate::assoc::{
    assoc_get, assoc_put, assoc_remove, assoc_values, keys_distinct, lemma_assoc_get_at,
    lemma_assoc_absent, lemma_assoc_at, lemma_assoc_put_distinct, lemma_assoc_remove_distinct,
};
use crate::core_value::{SerdeCoreValue, core_views};
use crate::errors::{ModelError, ModelErrorView, ModelResult};
use crate::ids::{new_record_id, is_v4_uuid_text};
use crate::iterators::pair_views;
use crate::navigation::navigate;
use crate::path::path_segments;
use crate::text::{compare_text, TextOrder};
use crate::traits::{PathNavigation, ValueAnalysis};
use crate::value::JsonView;

verus! {

/// The records of `s` whose value has something at the path `segs`.
pub open spec fn with_path(s: Seq<JsonView>, segs: Seq<Seq<char>>) -> Seq<JsonView> {
    s.filter(|v: JsonView| navigate(v, segs) is Some)
}

/// The records of `s` whose value at the path `segs` equals `expected` as
/// JSON values compare.
pub open spec fn with_value_at(s: Seq<JsonView>, segs: Seq<Seq<char>>, expected: JsonView) -> Seq<
    JsonView,
> {
    s.filter(
        |v: JsonView|
            match navigate(v, segs) {
                Some(x) => json_equiv(x, expected),
                None => false,
            },
    )
}

/// The records of `s` whose value at the path `segs` is the very value
/// `expected`, as their JSON texts agree.
pub open spec fn with_same_at(s: Seq<JsonView>, segs: Seq<Seq<char>>, expected: JsonView) -> Seq<
    JsonView,
> {
    s.filter(|v: JsonView| navigate(v, segs) == Some(expected))
}

/// The records of one model, each under its id, in the order they arrived.
pub struct RecordStore {
    records: Vec<(String, SerdeCoreValue)>,
}

impl View for RecordStore {
    type V = Seq<(Seq<char>, JsonView)>;

    closed spec fn view(&self) -> Seq<(Seq<char>, JsonView)> {
        pair_views(self.records@)
    }
}

impl RecordStore {
    #[verifier::type_invariant]
    closed spec fn inv(self) -> bool {
        keys_distinct(pair_views(self.records@))
    }

    /// The ids of a store are distinct.
    pub fn ids_distinct(&self) -> (r: bool)
        ensures
            r,
            keys_distinct(self@),
    {
        proof {
            use_type_invariant(self);
        }
        true
    }

    /// An empty store.
    pub fn new() -> (r: Self)
        ensures
            r@ == Seq::<(Seq<char>, JsonView)>::empty(),
    {
        let r = RecordStore { records: Vec::new() };
        assert(pair_views(r.records@) =~= Seq::<(Seq<char>, JsonView)>::empty());
        r
    }

    fn find(&self, id: &str) -> (r: Option<usize>)
        ensures
            match r {
                Some(i) => i < self@.len() && self@[i as int].0 == id@ && (forall|j: int|
                    0 <= j < i ==> (#[trigger] self@[j]).0 != id@) && assoc_get(self@, id@) == Some(
                    self@[i as int].1,
                ),
                None => (forall|j: int| 0 <= j < self@.len() ==> (#[trigger] self@[j]).0 != id@)
                    && assoc_get(self@, id@) is None,
            },
    {
        let mut i: usize = 0;
        while i < self.records.len()
            invariant
                i <= self.records.len(),
                self@ == pair_views(self.records@),
                forall|j: int| 0 <= j < i ==> (#[trigger] self@[j]).0 != id@,
            decreases self.records.len() - i,
        {
            if compare_text(self.records[i].0.as_str(), id) == TextOrder::Equal {
                proof {
                    lemma_assoc_get_at(self@, id@, i as int);
                }
                return Some(i);
            }
            i = i + 1;
        }
        proof {
            lemma_assoc_absent(self@, id@, JsonView::Null);
        }
        None
    }

    /// Writes `data` under `id`: in place of the record with this id, or as a
    /// new record at the end.
    pub fn put(&mut self, id: String, data: SerdeCoreValue)
        ensures
            final(self)@ == assoc_put(old(self)@, id@, data@),
    {
        proof {
            use_type_invariant(&*self);
            lemma_assoc_put_distinct(self@, id@, data@);
        }
        match self.find(id.as_str()) {
            Some(i) => {
                proof {
                    lemma_assoc_at(self@, id@, data@, i as int);
                }
                let ghost before = self.records@;
                let mut records = Vec::new();
                std::mem::swap(&mut records, &mut self.records);
                records.set(i, (id, data));
                proof {
                    assert(pair_views(records@) =~= pair_views(before).update(i as int, (id@, data@)));
                }
                self.records = records;
            },
            None => {
                proof {
                    lemma_assoc_absent(self@, id@, data@);
                }
                let ghost before = self.records@;
                let mut records = Vec::new();
                std::mem::swap(&mut records, &mut self.records);
                records.push((id, data));
                proof {
                    assert(pair_views(records@) =~= pair_views(before).push((id@, data@)));
                }
                self.records = records;
            },
        }
    }

    /// Stores `data` under `id`, or under a fresh random id when there is
    /// none, and gives back a copy of it.
    pub fn insert(&mut self, id: Option<String>, data: SerdeCoreValue) -> (r: ModelResult<SerdeCoreValue>)
        ensures
            r matches Ok(v) && v@ == data@,
            id matches Some(k) ==> final(self)@ == assoc_put(old(self)@, k@, data@),
            id is None ==> exists|g: Seq<char>|
                is_v4_uuid_text(g) && final(self)@ == #[trigger] assoc_put(old(self)@, g, data@),
    {
        let actual_id = match id {
            Some(k) => k,
            None => new_record_id(),
        };
        let copy = data.clone();
        let ghost g = actual_id@;
        self.put(actual_id, data);
        proof {
            if id is None {
                assert(is_v4_uuid_text(g) && self@ == assoc_put(old(self)@, g, data@));
            }
        }
        Ok(copy)
    }

    /// Replaces the record with id `id` and gives back a copy of the new
    /// value; an error when there is no such record.
    pub fn update(&mut self, id: &str, data: SerdeCoreValue) -> (r: ModelResult<SerdeCoreValue>)
        ensures
            assoc_get(old(self)@, id@) is Some ==> (r matches Ok(v) && v@ == data@) && final(self)@
                == assoc_put(old(self)@, id@, data@),
            assoc_get(old(self)@, id@) is None ==> (r matches Err(e) && e@
                == ModelErrorView::NotFound(id@)) && final(self)@ == old(self)@,
    {
        match self.find(id) {
            Some(_) => {
                let copy = data.clone();
                self.put(String::from_str(id), data);
                Ok(copy)
            },
            None => Err(ModelError::not_found(id)),
        }
    }

    /// A copy of the record with id `id`; an error when there is none.
    pub fn get(&self, id: &str) -> (r: ModelResult<SerdeCoreValue>)
        ensures
            match assoc_get(self@, id@) {
                Some(x) => r matches Ok(v) && v@ == x,
                None => r matches Err(e) && e@ == ModelErrorView::NotFound(id@),
            },
    {
        match self.find(id) {
            Some(i) => Ok(self.records[i].1.clone()),
            None => Err(ModelError::not_found(id)),
        }
    }

    /// Takes the record with id `id` out of the store; an error when there is none.
    pub fn remove(&mut self, id: &str) -> (r: ModelResult<SerdeCoreValue>)
        ensures
            match assoc_get(old(self)@, id@) {
                Some(x) => (r matches Ok(v) && v@ == x) && final(self)@ == assoc_remove(
                    old(self)@,
                    id@,
                ),
                None => (r matches Err(e) && e@ == ModelErrorView::NotFound(id@)) && final(self)@
                    == old(self)@,
            },
    {
        proof {
            use_type_invariant(&*self);
            lemma_assoc_remove_distinct(self@, id@);
        }
        match self.find(id) {
            Some(i) => {
                proof {
                    lemma_assoc_at(self@, id@, self@[i as int].1, i as int);
                }
                let ghost before = self.records@;
                let mut records = Vec::new();
                std::mem::swap(&mut records, &mut self.records);
                let (_k, v) = records.remove(i);
                proof {
                    assert(pair_views(records@) =~= pair_views(before).remove(i as int));
                }
                self.records = records;
                Ok(v)
            },
            None => Err(ModelError::not_found(id)),
        }
    }

    /// Whether there is a record with id `id`.
    pub fn record_exists(&self, id: &str) -> (r: bool)
        ensures
            r == assoc_get(self@, id@) is Some,
    {
        self.find(id).is_some()
    }

    /// The number of records.
    pub fn count(&self) -> (r: usize)
        ensures
            r == self@.len(),
    {
        self.records.len()
    }

    /// Copies of all records, in the order they arrived.
    pub fn get_all(&self) -> (r: Vec<SerdeCoreValue>)
        ensures
            core_views(r@) == assoc_values(self@),
    {
        let mut out: Vec<SerdeCoreValue> = Vec::new();
        let mut i: usize = 0;
        while i < self.records.len()
            invariant
                i <= self.records.len(),
                self@ == pair_views(self.records@),
                out.len() == i,
                forall|j: int| 0 <= j < i ==> (#[trigger] out@[j])@ == self@[j].1,
            decreases self.records.len() - i,
        {
            out.push(self.records[i].1.clone());
            i = i + 1;
        }
        proof {
            assert(core_views(out@) =~= assoc_values(self@));
        }
        out
    }

    /// What the record with id `id` holds at `path`; an error when there is
    /// no such record.
    pub fn get_by_path(&self, id: &str, path: &str) -> (r: ModelResult<Option<SerdeCoreValue>>)
        ensures
            match assoc_get(self@, id@) {
                Some(x) => match navigate(x, path_segments(path@)) {
                    Some(y) => r matches Ok(Some(v)) && v@ == y,
                    None => r matches Ok(None),
                },
                None => r matches Err(e) && e@ == ModelErrorView::NotFound(id@),
            },
    {
        match self.find(id) {
            Some(i) => self.records[i].1.get_by_path(path),
            None => Err(ModelError::not_found(id)),
        }
    }

    /// Copies of the records that hold something at `path`, in order.
    pub fn find_by_path_exists(&self, path: &str) -> (r: Vec<SerdeCoreValue>)
        ensures
            core_views(r@) == with_path(assoc_values(self@), path_segments(path@)),
    {
        let ghost vals = assoc_values(self@);
        let ghost segs = path_segments(path@);
        let mut out: Vec<SerdeCoreValue> = Vec::new();
        let mut i: usize = 0;
        proof {
            assert(vals.take(0) =~= Seq::<JsonView>::empty());
        }
        while i < self.records.len()
            invariant
                i <= self.records.len(),
                self@ == pair_views(self.records@),
                vals == assoc_values(self@),
                segs == path_segments(path@),
                core_views(out@) == with_path(vals.take(i as int), segs),
            decreases self.records.len() - i,
        {
            let found = self.records[i].1.has_path(path);
            let ghost before = out@;
            proof {
                assert(vals.take(i + 1).drop_last() =~= vals.take(i as int));
                assert(vals.take(i + 1).last() == self.records@[i as int].1@);
                assert(vals[i as int] == self.records@[i as int].1@);
                reveal(Seq::filter);
            }
            match found {
                Ok(true) => {
                    out.push(self.records[i].1.clone());
                    proof {
                        assert(core_views(out@) =~= core_views(before).push(vals[i as int]));
                        assert(with_path(vals.take(i + 1), segs) == with_path(vals.take(i as int), segs).push(vals[i as int]));
                    }
                },
                _ => {
                    assert(with_path(vals.take(i + 1), segs) == with_path(vals.take(i as int), segs));
                },
            }
            i = i + 1;
        }
        proof {
            assert(vals.take(i as int) =~= vals);
        }
        out
    }

    /// Copies of the records whose value at `path` equals `expected` as JSON
    /// values compare, in order.
    pub fn find_by_path_value(&self, path: &str, expected: &SerdeCoreValue) -> (r: Vec<SerdeCoreValue>)
        ensures
            core_views(r@) == with_value_at(assoc_values(self@), path_segments(path@), expected@),
    {
        let ghost vals = assoc_values(self@);
        let ghost segs = path_segments(path@);
        let mut out: Vec<SerdeCoreValue> = Vec::new();
        let mut i: usize = 0;
        proof {
            assert(vals.take(0) =~= Seq::<JsonView>::empty());
        }
        while i < self.records.len()
            invariant
                i <= self.records.len(),
                self@ == pair_views(self.records@),
                vals == assoc_values(self@),
                segs == path_segments(path@),
                core_views(out@) == with_value_at(vals.take(i as int), segs, expected@),
            decreases self.records.len() - i,
        {
            let ghost before = out@;
            proof {
                assert(vals.take(i + 1).drop_last() =~= vals.take(i as int));
                assert(vals.take(i + 1).last() == self.records@[i as int].1@);
                assert(vals[i as int] == self.records@[i as int].1@);
                reveal(Seq::filter);
            }
            match self.records[i].1.get_by_path(path) {
                Ok(Some(value)) => {
                    match value.equals(expected) {
                        Ok(true) => {
                            out.push(self.records[i].1.clone());
                            proof {
                                assert(core_views(out@) =~= core_views(before).push(vals[i as int]));
                                assert(with_value_at(vals.take(i + 1), segs, expected@) == with_value_at(vals.take(i as int), segs, expected@).push(vals[i as int]));
                            }
                        },
                        _ => {
                            assert(with_value_at(vals.take(i + 1), segs, expected@) == with_value_at(vals.take(i as int), segs, expected@));
                        },
                    }
                },
                _ => {
                    assert(with_value_at(vals.take(i + 1), segs, expected@) == with_value_at(vals.take(i as int), segs, expected@));
                },
            }
            i = i + 1;
        }
        proof {
            assert(vals.take(i as int) =~= vals);
        }
        out
    }

    /// Copies of the records whose value at `path` is the very value
    /// `expected` (the same JSON text), in order.
    pub fn find_by_path_same(&self, path: &str, expected: &SerdeCoreValue) -> (r: Vec<SerdeCoreValue>)
        ensures
            core_views(r@) == with_same_at(assoc_values(self@), path_segments(path@), expected@),
    {
        let ghost vals = assoc_values(self@);
        let ghost segs = path_segments(path@);
        let mut out: Vec<SerdeCoreValue> = Vec::new();
        let mut i: usize = 0;
        proof {
            assert(vals.take(0) =~= Seq::<JsonView>::empty());
        }
        while i < self.records.len()
            invariant
                i <= self.records.len(),
                self@ == pair_views(self.records@),
                vals == assoc_values(self@),
                segs == path_segments(path@),
                core_views(out@) == with_same_at(vals.take(i as int), segs, expected@),
            decreases self.records.len() - i,
        {
            let ghost before = out@;
            proof {
                assert(vals.take(i + 1).drop_last() =~= vals.take(i as int));
                assert(vals.take(i + 1).last() == self.records@[i as int].1@);
                assert(vals[i as int] == self.records@[i as int].1@);
                reveal(Seq::filter);
            }
            match self.records[i].1.get_by_path(path) {
                Ok(Some(value)) => {
                    if value.json().identical(expected.json()) {
                        out.push(self.records[i].1.clone());
                        proof {
                            assert(core_views(out@) =~= core_views(before).push(vals[i as int]));
                            assert(with_same_at(vals.take(i + 1), segs, expected@) == with_same_at(vals.take(i as int), segs, expected@).push(vals[i as int]));
                        }
                    } else {
                        assert(with_same_at(vals.take(i + 1), segs, expected@) == with_same_at(vals.take(i as int), segs, expected@));
                    }
                },
                _ => {
                    assert(with_same_at(vals.take(i + 1), segs, expected@) == with_same_at(vals.take(i as int), segs, expected@));
                },
            }
            i = i + 1;
        }
        proof {
            assert(vals.take(i as int) =~= vals);
        }
        out
    }
}

} // verus!

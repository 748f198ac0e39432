use vstd::prelude::*;
use crate::assoc::{
    assoc_get, assoc_put, assoc_remove, assoc_values, keys_distinct, lemma_assoc_get_at,
    lemma_assoc_absent, lemma_assoc_at, lemma_assoc_put_distinct,
};
use crate::core_value::{SerdeCoreValue, core_views};
use crate::errors::{ModelError, ModelErrorView, ModelResult};
use crate::ids::is_v4_uuid_text;
use crate::navigation::navigate;
use crate::path::path_segments;
use crate::store::{RecordStore, with_path, with_value_at};
use crate::text::{compare_text, TextOrder};
use crate::value::JsonView;

verus! {

/// The records of the model `name`; none when there is no such model.
pub open spec fn model_records(
    m: Seq<(Seq<char>, Seq<(Seq<char>, JsonView)>)>,
    name: Seq<char>,
) -> Seq<(Seq<char>, JsonView)> {
    match assoc_get(m, name) {
        Some(s) => s,
        None => Seq::empty(),
    }
}

/// The state after writing `v` under `id` in the model `name`, the model
/// being created when it does not exist.
pub open spec fn put_record(
    m: Seq<(Seq<char>, Seq<(Seq<char>, JsonView)>)>,
    name: Seq<char>,
    id: Seq<char>,
    v: JsonView,
) -> Seq<(Seq<char>, Seq<(Seq<char>, JsonView)>)> {
    assoc_put(m, name, assoc_put(model_records(m, name), id, v))
}

/// The state after removing the record `id` of the model `name`.
pub open spec fn remove_record(
    m: Seq<(Seq<char>, Seq<(Seq<char>, JsonView)>)>,
    name: Seq<char>,
    id: Seq<char>,
) -> Seq<(Seq<char>, Seq<(Seq<char>, JsonView)>)> {
    assoc_put(m, name, assoc_remove(model_records(m, name), id))
}

/// The record `id` of the model `name`, if there is one.
pub open spec fn find_record(
    m: Seq<(Seq<char>, Seq<(Seq<char>, JsonView)>)>,
    name: Seq<char>,
    id: Seq<char>,
) -> Option<JsonView> {
    assoc_get(model_records(m, name), id)
}

/// A walk over copies of a list of records.
pub struct ModelIterator<T: Clone> {
    items: Vec<T>,
    index: usize,
}

impl<T: Clone> ModelIterator<T> {
    #[verifier::type_invariant]
    closed spec fn inv(self) -> bool {
        self.index <= self.items.len()
    }

    /// The records still to come.
    pub closed spec fn pending(&self) -> Seq<T> {
        self.items@.skip(self.index as int)
    }

    /// A walk over these records, in order.
    pub fn new(items: Vec<T>) -> (r: Self)
        ensures
            r.pending() == items@,
    {
        let r = ModelIterator { items, index: 0 };
        assert(r.items@.skip(0) =~= r.items@);
        r
    }

    /// A copy of the next record.
    pub fn next(&mut self) -> (r: Option<ModelResult<T>>)
        ensures
            old(self).pending().len() > 0 ==> (r matches Some(Ok(x)) && cloned(
                old(self).pending()[0],
                x,
            )) && final(self).pending() == old(self).pending().drop_first(),
            old(self).pending().len() == 0 ==> r is None && final(self).pending() == old(self).pending(),
    {
        proof {
            use_type_invariant(&*self);
        }
        if self.index < self.items.len() {
            let item = self.items[self.index].clone();
            self.index = self.index + 1;
            proof {
                assert(self.items@.skip(self.index as int) =~= old(self).pending().drop_first());
            }
            Some(Ok(item))
        } else {
            None
        }
    }

    /// The number of records still to come, as both bounds.
    pub fn size_hint(&self) -> (r: (usize, Option<usize>))
        ensures
            r.0 == self.pending().len(),
            r.1 == Some(r.0),
    {
        proof {
            use_type_invariant(self);
        }
        let remaining = self.items.len() - self.index;
        (remaining, Some(remaining))
    }

    /// The number of records still to come.
    pub fn len(&self) -> (r: usize)
        ensures
            r == self.pending().len(),
    {
        proof {
            use_type_invariant(self);
        }
        self.items.len() - self.index
    }
}

/// The operations of a store of models, each a collection of records under ids.
pub trait ModelManager<T> {
    fn insert(&mut self, model_name: &str, id: Option<&str>, data: T) -> ModelResult<T>;

    fn update(&mut self, model_name: &str, id: &str, data: T) -> ModelResult<T>;

    fn get(&self, model_name: &str, id: &str) -> ModelResult<T>;

    fn remove(&mut self, model_name: &str, id: &str) -> ModelResult<T>;

    fn iter_all(&self, model_name: &str) -> ModelResult<ModelIterator<T>> where T: Clone;

    fn get_all(&self, model_name: &str) -> ModelResult<Vec<T>>;

    fn get_by_path(&self, model_name: &str, id: &str, path: &str) -> ModelResult<Option<T>>;

    fn find_by_path_exists(&self, model_name: &str, path: &str) -> ModelResult<Vec<T>>;

    fn find_by_path_value(&self, model_name: &str, path: &str, expected_value: T) -> ModelResult<
        Vec<T>,
    >;

    fn count(&self, model_name: &str) -> ModelResult<usize>;

    fn record_exists(&self, model_name: &str, id: &str) -> ModelResult<bool>;
}

/// The store of models held in memory.
pub struct SimpleModelManager {
    models: Vec<(String, RecordStore)>,
}

/// Each model's record ids are distinct.
pub open spec fn records_distinct(m: Seq<(Seq<char>, Seq<(Seq<char>, JsonView)>)>) -> bool {
    forall|i: int| 0 <= i < m.len() ==> keys_distinct(#[trigger] m[i].1)
}

/// The value under a key of a keyed sequence is the value of one of its entries.
proof fn lemma_assoc_get_entry<V>(s: Seq<(Seq<char>, V)>, k: Seq<char>)
    requires
        assoc_get(s, k) is Some,
    ensures
        exists|i: int| 0 <= i < s.len() && (#[trigger] s[i]).1 == assoc_get(s, k)->0,
    decreases s.len(),
{
    if s[0].0 != k {
        lemma_assoc_get_entry(s.drop_first(), k);
        let i = choose|i: int|
            0 <= i < s.drop_first().len() && (#[trigger] s.drop_first()[i]).1 == assoc_get(
                s.drop_first(),
                k,
            )->0;
        assert(s[i + 1] == s.drop_first()[i]);
    } else {
        assert(s[0].1 == assoc_get(s, k)->0);
    }
}

/// The names and record views of the models.
pub open spec fn model_views(v: Seq<(String, RecordStore)>) -> Seq<
    (Seq<char>, Seq<(Seq<char>, JsonView)>),
> {
    v.map_values(|p: (String, RecordStore)| (p.0@, p.1@))
}

impl View for SimpleModelManager {
    type V = Seq<(Seq<char>, Seq<(Seq<char>, JsonView)>)>;

    closed spec fn view(&self) -> Seq<(Seq<char>, Seq<(Seq<char>, JsonView)>)> {
        model_views(self.models@)
    }
}

fn find_model(models: &Vec<(String, RecordStore)>, name: &str) -> (r: Option<usize>)
    ensures
        match r {
            Some(i) => i < models.len() && model_views(models@)[i as int].0 == name@ && (forall|j: int|
                0 <= j < i ==> (#[trigger] model_views(models@)[j]).0 != name@) && assoc_get(
                model_views(models@),
                name@,
            ) == Some(models@[i as int].1@),
            None => (forall|j: int|
                0 <= j < models.len() ==> (#[trigger] model_views(models@)[j]).0 != name@)
                && assoc_get(model_views(models@), name@) is None,
        },
{
    let ghost mv = model_views(models@);
    let mut i: usize = 0;
    while i < models.len()
        invariant
            i <= models.len(),
            mv == model_views(models@),
            forall|j: int| 0 <= j < i ==> (#[trigger] mv[j]).0 != name@,
        decreases models.len() - i,
    {
        if compare_text(models[i].0.as_str(), name) == TextOrder::Equal {
            proof {
                lemma_assoc_get_at(mv, name@, i as int);
            }
            return Some(i);
        }
        i = i + 1;
    }
    proof {
        lemma_assoc_absent(mv, name@, Seq::empty());
    }
    None
}

impl SimpleModelManager {
    #[verifier::type_invariant]
    closed spec fn inv(self) -> bool {
        keys_distinct(model_views(self.models@)) && records_distinct(model_views(self.models@))
    }

    /// The model names are distinct, and so are the record ids of each model.
    pub fn ids_distinct(&self) -> (r: bool)
        ensures
            r,
            keys_distinct(self@),
            forall|name: Seq<char>| keys_distinct(#[trigger] model_records(self@, name)),
    {
        proof {
            use_type_invariant(self);
            assert forall|name: Seq<char>| keys_distinct(#[trigger] model_records(self@, name)) by {
                if assoc_get(self@, name) is Some {
                    lemma_assoc_get_entry(self@, name);
                }
            }
        }
        true
    }

    /// A store with no models.
    pub fn new() -> (r: Self)
        ensures
            r@ == Seq::<(Seq<char>, Seq<(Seq<char>, JsonView)>)>::empty(),
    {
        let r = SimpleModelManager { models: Vec::new() };
        assert(model_views(r.models@) =~= Seq::<(Seq<char>, Seq<(Seq<char>, JsonView)>)>::empty());
        r
    }

    /// Takes the models out, with the store of the model `name` (an empty one
    /// when there is none) and where it stood.
    fn detach(&mut self, name: &str) -> (r: (Vec<(String, RecordStore)>, Option<usize>, String, RecordStore))
        ensures
            keys_distinct(old(self)@),
            records_distinct(old(self)@),
            final(self)@ == Seq::<(Seq<char>, Seq<(Seq<char>, JsonView)>)>::empty(),
            r.2@ == name@,
            r.3@ == model_records(old(self)@, name@),
            match r.1 {
                Some(i) => i < old(self)@.len() && old(self)@[i as int].0 == name@
                    && model_views(r.0@) == old(self)@.remove(i as int) && (forall|j: int|
                    0 <= j < i ==> (#[trigger] old(self)@[j]).0 != name@),
                None => model_views(r.0@) == old(self)@ && (forall|j: int|
                    0 <= j < old(self)@.len() ==> (#[trigger] old(self)@[j]).0 != name@),
            },
    {
        proof {
            use_type_invariant(&*self);
        }
        let mut models: Vec<(String, RecordStore)> = Vec::new();
        std::mem::swap(&mut models, &mut self.models);
        proof {
            assert(model_views(self.models@) =~= Seq::<(Seq<char>, Seq<(Seq<char>, JsonView)>)>::empty());
        }
        match find_model(&models, name) {
            Some(i) => {
                let ghost before = models@;
                let (n, store) = models.remove(i);
                proof {
                    assert(model_views(models@) =~= model_views(before).remove(i as int));
                    assert(n@ == name@);
                }
                (models, Some(i), n, store)
            },
            None => (models, None, String::from_str(name), RecordStore::new()),
        }
    }

    /// Puts the models back after `detach`, with the store of the model
    /// `name` as it now is.
    fn attach(
        &mut self,
        models: Vec<(String, RecordStore)>,
        at: Option<usize>,
        name: String,
        store: RecordStore,
        Ghost(m): Ghost<Seq<(Seq<char>, Seq<(Seq<char>, JsonView)>)>>,
    )
        requires
            keys_distinct(m),
            records_distinct(m),
            match at {
                Some(i) => i < m.len() && m[i as int].0 == name@ && model_views(models@) == m.remove(
                    i as int,
                ) && (forall|j: int| 0 <= j < i ==> (#[trigger] m[j]).0 != name@),
                None => model_views(models@) == m && (forall|j: int|
                    0 <= j < m.len() ==> (#[trigger] m[j]).0 != name@),
            },
        ensures
            final(self)@ == assoc_put(m, name@, store@),
    {
        let mut models = models;
        let ghost before = models@;
        let _ = store.ids_distinct();
        proof {
            match at {
                Some(i) => {
                    lemma_assoc_at(m, name@, store@, i as int);
                    assert(m.remove(i as int).insert(i as int, (name@, store@)) =~= m.update(
                        i as int,
                        (name@, store@),
                    ));
                },
                None => {
                    lemma_assoc_absent(m, name@, store@);
                },
            }
            lemma_assoc_put_distinct(m, name@, store@);
            let after = assoc_put(m, name@, store@);
            assert forall|j: int| 0 <= j < after.len() implies keys_distinct(#[trigger] after[j].1) by {
                match at {
                    Some(i) => {
                        if j != i {
                            assert(after[j] == m[j]);
                        }
                    },
                    None => {
                        if j < m.len() {
                            assert(after[j] == m[j]);
                        }
                    },
                }
            }
        }
        match at {
            Some(i) => {
                models.insert(i, (name, store));
                proof {
                    assert(model_views(models@) =~= model_views(before).insert(i as int, (name@, store@)));
                }
            },
            None => {
                models.push((name, store));
                proof {
                    assert(model_views(models@) =~= model_views(before).push((name@, store@)));
                }
            },
        }
        self.models = models;
    }
}

/// Writing back what a key already holds changes nothing.
pub proof fn lemma_assoc_put_same<V>(s: Seq<(Seq<char>, V)>, k: Seq<char>)
    requires
        assoc_get(s, k) is Some,
    ensures
        assoc_put(s, k, assoc_get(s, k)->0) == s,
    decreases s.len(),
{
    if s[0].0 == k {
        assert(seq![(k, s[0].1)] + s.drop_first() =~= s);
    } else {
        lemma_assoc_put_same(s.drop_first(), k);
        assert(seq![s[0]] + s.drop_first() =~= s);
    }
}

impl ModelManager<SerdeCoreValue> for SimpleModelManager {
    fn insert(&mut self, model_name: &str, id: Option<&str>, data: SerdeCoreValue) -> (r: ModelResult<
        SerdeCoreValue,
    >)
        ensures
            r matches Ok(v) && v@ == data@,
            id matches Some(k) ==> final(self)@ == put_record(old(self)@, model_name@, k@, data@),
            id is None ==> exists|g: Seq<char>|
                is_v4_uuid_text(g) && final(self)@ == #[trigger] put_record(
                    old(self)@,
                    model_name@,
                    g,
                    data@,
                ),
    {
        let ghost m = self@;
        let (models, at, name, mut store) = self.detach(model_name);
        let owned = match id {
            Some(k) => Some(String::from_str(k)),
            None => None,
        };
        let ghost before = store@;
        let r = store.insert(owned, data);
        self.attach(models, at, name, store, Ghost(m));
        proof {
            if id is None {
                let g = choose|g: Seq<char>|
                    is_v4_uuid_text(g) && store@ == #[trigger] assoc_put(before, g, data@);
                assert(is_v4_uuid_text(g) && self@ == put_record(m, model_name@, g, data@));
            }
        }
        r
    }

    fn update(&mut self, model_name: &str, id: &str, data: SerdeCoreValue) -> (r: ModelResult<
        SerdeCoreValue,
    >)
        ensures
            find_record(old(self)@, model_name@, id@) is Some ==> (r matches Ok(v) && v@ == data@)
                && final(self)@ == put_record(old(self)@, model_name@, id@, data@),
            find_record(old(self)@, model_name@, id@) is None ==> (r matches Err(e) && e@
                == ModelErrorView::NotFound(id@)) && final(self)@ == old(self)@,
    {
        if find_model(&self.models, model_name).is_none() {
            return Err(ModelError::not_found(id));
        }
        let ghost m = self@;
        let (models, at, name, mut store) = self.detach(model_name);
        let r = store.update(id, data);
        self.attach(models, at, name, store, Ghost(m));
        proof {
            if r is Err {
                lemma_assoc_put_same(m, model_name@);
            }
        }
        r
    }

    fn get(&self, model_name: &str, id: &str) -> (r: ModelResult<SerdeCoreValue>)
        ensures
            match find_record(self@, model_name@, id@) {
                Some(x) => r matches Ok(v) && v@ == x,
                None => r matches Err(e) && e@ == ModelErrorView::NotFound(id@),
            },
    {
        match find_model(&self.models, model_name) {
            Some(i) => self.models[i].1.get(id),
            None => Err(ModelError::not_found(id)),
        }
    }

    fn remove(&mut self, model_name: &str, id: &str) -> (r: ModelResult<SerdeCoreValue>)
        ensures
            match find_record(old(self)@, model_name@, id@) {
                Some(x) => (r matches Ok(v) && v@ == x) && final(self)@ == remove_record(
                    old(self)@,
                    model_name@,
                    id@,
                ),
                None => (r matches Err(e) && e@ == ModelErrorView::NotFound(id@)) && final(self)@
                    == old(self)@,
            },
    {
        if find_model(&self.models, model_name).is_none() {
            return Err(ModelError::not_found(id));
        }
        let ghost m = self@;
        let (models, at, name, mut store) = self.detach(model_name);
        let r = store.remove(id);
        self.attach(models, at, name, store, Ghost(m));
        proof {
            if r is Err {
                lemma_assoc_put_same(m, model_name@);
            }
        }
        r
    }

    fn iter_all(&self, model_name: &str) -> (r: ModelResult<ModelIterator<SerdeCoreValue>>)
        ensures
            r matches Ok(it) && core_views(it.pending()) == assoc_values(
                model_records(self@, model_name@),
            ),
    {
        match self.get_all(model_name) {
            Ok(values) => Ok(ModelIterator::new(values)),
            Err(e) => Err(e),
        }
    }

    fn get_all(&self, model_name: &str) -> (r: ModelResult<Vec<SerdeCoreValue>>)
        ensures
            r matches Ok(v) && core_views(v@) == assoc_values(model_records(self@, model_name@)),
    {
        match find_model(&self.models, model_name) {
            Some(i) => Ok(self.models[i].1.get_all()),
            None => {
                let v: Vec<SerdeCoreValue> = Vec::new();
                assert(core_views(v@) =~= assoc_values(model_records(self@, model_name@)));
                Ok(v)
            },
        }
    }

    fn get_by_path(&self, model_name: &str, id: &str, path: &str) -> (r: ModelResult<
        Option<SerdeCoreValue>,
    >)
        ensures
            match find_record(self@, model_name@, id@) {
                Some(x) => match navigate(x, path_segments(path@)) {
                    Some(y) => r matches Ok(Some(v)) && v@ == y,
                    None => r matches Ok(None),
                },
                None => r matches Err(e) && e@ == ModelErrorView::NotFound(id@),
            },
    {
        match find_model(&self.models, model_name) {
            Some(i) => self.models[i].1.get_by_path(id, path),
            None => Err(ModelError::not_found(id)),
        }
    }

    fn find_by_path_exists(&self, model_name: &str, path: &str) -> (r: ModelResult<
        Vec<SerdeCoreValue>,
    >)
        ensures
            r matches Ok(v) && core_views(v@) == with_path(
                assoc_values(model_records(self@, model_name@)),
                path_segments(path@),
            ),
    {
        match find_model(&self.models, model_name) {
            Some(i) => Ok(self.models[i].1.find_by_path_exists(path)),
            None => {
                let v: Vec<SerdeCoreValue> = Vec::new();
                proof {
                    reveal(Seq::filter);
                    assert(core_views(v@) =~= with_path(
                        assoc_values(model_records(self@, model_name@)),
                        path_segments(path@),
                    ));
                }
                Ok(v)
            },
        }
    }

    fn find_by_path_value(&self, model_name: &str, path: &str, expected_value: SerdeCoreValue) -> (r:
        ModelResult<Vec<SerdeCoreValue>>)
        ensures
            r matches Ok(v) && core_views(v@) == with_value_at(
                assoc_values(model_records(self@, model_name@)),
                path_segments(path@),
                expected_value@,
            ),
    {
        match find_model(&self.models, model_name) {
            Some(i) => Ok(self.models[i].1.find_by_path_value(path, &expected_value)),
            None => {
                let v: Vec<SerdeCoreValue> = Vec::new();
                proof {
                    reveal(Seq::filter);
                    assert(core_views(v@) =~= with_value_at(
                        assoc_values(model_records(self@, model_name@)),
                        path_segments(path@),
                        expected_value@,
                    ));
                }
                Ok(v)
            },
        }
    }

    fn count(&self, model_name: &str) -> (r: ModelResult<usize>)
        ensures
            r matches Ok(n) && n == model_records(self@, model_name@).len(),
    {
        match find_model(&self.models, model_name) {
            Some(i) => Ok(self.models[i].1.count()),
            None => Ok(0),
        }
    }

    fn record_exists(&self, model_name: &str, id: &str) -> (r: ModelResult<bool>)
        ensures
            r matches Ok(b) && b == find_record(self@, model_name@, id@) is Some,
    {
        match find_model(&self.models, model_name) {
            Some(i) => Ok(self.models[i].1.record_exists(id)),
            None => Ok(false),
        }
    }
}

} // verus!

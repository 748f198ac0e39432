use vstd::prelude::*;
use crate::dynamic::{DynamicValue, DynamicValueImpl, impl_views};
use crate::errors::DynamicResult;
use crate::ids::{new_record_id, is_v4_uuid_text};
use crate::value::{JsonView, obj_values};

verus! {

/// The message for a record that is not there.
pub open spec fn missing_message(id: Seq<char>) -> Seq<char> {
    "Elemento con id '"@ + id + "' no encontrado"@
}

/// The message for a record that is not there.
pub fn missing_error(id: &str) -> (r: String)
    ensures
        r@ == missing_message(id@),
{
    let mut m = String::from_str("Elemento con id '");
    m.append(id);
    m.append("' no encontrado");
    m
}

/// The state of the actor of one model: a dynamic value whose keys are the
/// ids of its records.
pub struct ModelActor {
    state: DynamicValueImpl,
}

impl View for ModelActor {
    type V = JsonView;

    closed spec fn view(&self) -> JsonView {
        self.state@
    }
}

impl ModelActor {
    /// An actor holding `data`.
    pub fn new(data: DynamicValueImpl) -> (r: Self)
        ensures
            r@ == data@,
    {
        ModelActor { state: data }
    }

    /// An actor holding an empty object.
    pub fn new_object() -> (r: Self)
        ensures
            r@ == JsonView::Object(Seq::empty()),
    {
        Self::new(DynamicValueImpl::new_object())
    }

    /// Writes `value` under `id`.
    pub fn insert(&mut self, id: &str, value: DynamicValueImpl) -> (r: DynamicResult<()>)
        ensures
            (r is Ok) == old(self)@.is_object(),
            final(self)@ == old(self)@.set_key(id@, value@),
    {
        self.state.set(id, value)
    }

    /// Removes the record `id`.
    pub fn remove(&mut self, id: &str) -> (r: DynamicResult<()>)
        ensures
            (r is Ok) == old(self)@.is_object(),
            final(self)@ == old(self)@.remove_key(id@),
    {
        self.state.remove(id)
    }

    /// Writes `value` under `id`, whether or not a record was there.
    pub fn update(&mut self, id: &str, value: DynamicValueImpl) -> (r: DynamicResult<()>)
        ensures
            (r is Ok) == old(self)@.is_object(),
            final(self)@ == old(self)@.set_key(id@, value@),
    {
        self.state.set(id, value)
    }

    /// A copy of the record `id`.
    pub fn get(&self, id: &str) -> (r: Option<DynamicValueImpl>)
        ensures
            match self@.get_key(id@) {
                Some(x) => r matches Some(v) && v@ == x,
                None => r is None,
            },
    {
        self.state.get(id)
    }

    /// Copies of all records, in id order.
    pub fn get_all(&self) -> (r: Vec<DynamicValueImpl>)
        ensures
            impl_views(r@) == obj_values(self@.entries()),
    {
        self.state.get_all()
    }

    /// Whether the state is empty.
    pub fn is_empty(&self) -> (r: bool)
        ensures
            r == self@.is_blank(),
    {
        self.state.is_empty()
    }

    /// Handles an insert: stores `data` under `id`, or under a fresh random
    /// id when there is none, and answers with the record as stored.
    pub fn handle_insert(&mut self, id: Option<String>, data: DynamicValueImpl) -> (r: Result<
        DynamicValueImpl,
        String,
    >)
        ensures
            old(self)@.is_object() ==> (r matches Ok(v) && v@ == data@),
            !old(self)@.is_object() ==> final(self)@ == old(self)@ && r is Err,
            id matches Some(k) ==> final(self)@ == old(self)@.set_key(k@, data@) && (
            !old(self)@.is_object() ==> (r matches Err(m) && m@ == missing_message(k@))),
            id is None ==> exists|g: Seq<char>|
                is_v4_uuid_text(g) && final(self)@ == #[trigger] old(self)@.set_key(g, data@) && (
                !old(self)@.is_object() ==> (r matches Err(m) && m@ == missing_message(g))),
    {
        let key = match id {
            Some(k) => k,
            None => new_record_id(),
        };
        let _ = self.insert(key.as_str(), data);
        let r = match self.get(key.as_str()) {
            Some(value) => Ok(value),
            None => Err(missing_error(key.as_str())),
        };
        proof {
            if old(self)@.is_object() {
                crate::value::lemma_obj_set_get(old(self)@.entries(), key@, data@);
            }
            if id is None {
                assert(is_v4_uuid_text(key@) && self@ == old(self)@.set_key(key@, data@));
            }
        }
        r
    }

    /// Handles an update: writes `data` under `id` and answers with the record
    /// as stored.
    pub fn handle_update(&mut self, id: String, data: DynamicValueImpl) -> (r: Result<
        DynamicValueImpl,
        String,
    >)
        ensures
            final(self)@ == old(self)@.set_key(id@, data@),
            old(self)@.is_object() ==> (r matches Ok(v) && v@ == data@),
            !old(self)@.is_object() ==> (r matches Err(m) && m@ == missing_message(id@)),
    {
        let _ = self.update(id.as_str(), data);
        proof {
            if old(self)@.is_object() {
                crate::value::lemma_obj_set_get(old(self)@.entries(), id@, data@);
            }
        }
        match self.get(id.as_str()) {
            Some(value) => Ok(value),
            None => Err(missing_error(id.as_str())),
        }
    }

    /// Handles a read of the record `id`.
    pub fn handle_get(&self, id: String) -> (r: Result<DynamicValueImpl, String>)
        ensures
            match self@.get_key(id@) {
                Some(x) => r matches Ok(v) && v@ == x,
                None => r matches Err(m) && m@ == missing_message(id@),
            },
    {
        match self.get(id.as_str()) {
            Some(value) => Ok(value),
            None => Err(missing_error(id.as_str())),
        }
    }

    /// Handles a delete: takes the record `id` out and answers with it.
    pub fn handle_delete(&mut self, id: String) -> (r: Result<DynamicValueImpl, String>)
        ensures
            match old(self)@.get_key(id@) {
                Some(x) => (r matches Ok(v) && v@ == x) && final(self)@ == old(self)@.remove_key(
                    id@,
                ),
                None => (r matches Err(m) && m@ == missing_message(id@)) && final(self)@ == old(
                    self,
                )@,
            },
    {
        match self.get(id.as_str()) {
            Some(value) => {
                let _ = self.remove(id.as_str());
                Ok(value)
            },
            None => Err(missing_error(id.as_str())),
        }
    }

    /// Handles a read of all records.
    pub fn handle_get_all(&self) -> (r: Result<Vec<DynamicValueImpl>, String>)
        ensures
            r matches Ok(v) && impl_views(v@) == obj_values(self@.entries()),
    {
        Ok(self.get_all())
    }
}

/// A keyed collection of dynamic values, kept in one object.
pub struct DynamicData {
    data: DynamicValueImpl,
}

impl View for DynamicData {
    type V = Seq<(Seq<char>, JsonView)>;

    closed spec fn view(&self) -> Seq<(Seq<char>, JsonView)> {
        self.data@.entries()
    }
}

impl DynamicData {
    #[verifier::type_invariant]
    closed spec fn inv(self) -> bool {
        self.data@.is_object()
    }

    /// An empty collection.
    pub fn new() -> (r: Self)
        ensures
            r@ == Seq::<(Seq<char>, JsonView)>::empty(),
    {
        DynamicData { data: DynamicValueImpl::new_object() }
    }

    /// Writes `value` under `id`.
    pub fn insert(&mut self, id: &str, value: DynamicValueImpl)
        ensures
            final(self)@ == crate::value::obj_set(old(self)@, id@, value@),
    {
        proof {
            use_type_invariant(&*self);
        }
        let mut data = DynamicValueImpl::new_object();
        std::mem::swap(&mut data, &mut self.data);
        let _ = data.set(id, value);
        self.data = data;
    }

    /// Removes the entry `id`, if there is one.
    pub fn remove(&mut self, id: &str)
        ensures
            final(self)@ == crate::value::obj_remove(old(self)@, id@),
    {
        proof {
            use_type_invariant(&*self);
        }
        let mut data = DynamicValueImpl::new_object();
        std::mem::swap(&mut data, &mut self.data);
        let _ = data.remove(id);
        self.data = data;
    }

    /// Writes `value` under `id`.
    pub fn update(&mut self, id: &str, value: DynamicValueImpl)
        ensures
            final(self)@ == crate::value::obj_set(old(self)@, id@, value@),
    {
        self.insert(id, value)
    }

    /// A copy of the value under `id`.
    pub fn get(&self, id: &str) -> (r: Option<DynamicValueImpl>)
        ensures
            match crate::value::obj_get(self@, id@) {
                Some(x) => r matches Some(v) && v@ == x,
                None => r is None,
            },
    {
        proof {
            use_type_invariant(self);
        }
        self.data.get(id)
    }

    /// Whether the collection is empty.
    pub fn is_empty(&self) -> (r: bool)
        ensures
            r == (self@.len() == 0),
    {
        proof {
            use_type_invariant(self);
        }
        self.data.is_empty()
    }
}

} // verus!

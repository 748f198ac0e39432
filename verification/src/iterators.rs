use vstd::prelude::*;
use crate::core_value::SerdeCoreValue;
use crate::dynamic_value::{SerdeDynamicValue, dynamic_views};
use crate::text::{compare_text, TextOrder};
use crate::traits::CoreValue;
use crate::errors::{ModelError, ModelErrorView, ModelResult};
use crate::value::{
    JsonValue, JsonView, obj_set, view_entries, view_items, lemma_view_entries, lemma_view_items,
    lemma_set_key_wf,
};

verus! {

/// Walking the items of an array one at a time.
pub trait ArrayIterator: Sized {
    type Item;

    spec fn pending(&self) -> Seq<Self::Item>;

    /// The number of items `size_hint` reports as left.
    spec fn reported(&self) -> nat;

    fn next(&mut self) -> Option<Self::Item>;

    fn size_hint(&self) -> (usize, Option<usize>);

    fn nth(&mut self, n: usize) -> Option<Self::Item>;

    fn count(&mut self) -> usize;

    fn collect(&mut self) -> Vec<Self::Item>;

    fn find<F>(&mut self, predicate: F) -> Option<Self::Item> where F: Fn(&Self::Item) -> bool
        requires
            forall|x: &Self::Item| call_requires(predicate, (x,)),
    ;

    fn filter<F>(&mut self, predicate: F) -> Vec<Self::Item> where F: Fn(&Self::Item) -> bool
        requires
            forall|x: &Self::Item| call_requires(predicate, (x,)),
    ;

    fn map<F, R>(&mut self, mapper: F) -> Vec<R> where F: Fn(Self::Item) -> R
        requires
            forall|x: Self::Item| call_requires(mapper, (x,)),
    ;

    fn for_each_batch<F>(&mut self, batch_size: usize, processor: F) -> usize where
        F: Fn(Vec<Self::Item>),

        requires
            forall|v: Vec<Self::Item>| call_requires(processor, (v,)),
    ;
}

/// Walking the entries of an object one at a time, in key order.
pub trait ObjectIterator: Sized {
    type Item;

    spec fn pending(&self) -> Seq<(String, Self::Item)>;

    /// The number of entries `size_hint` reports as left.
    spec fn reported(&self) -> nat;

    fn next(&mut self) -> Option<(String, Self::Item)>;

    fn size_hint(&self) -> (usize, Option<usize>);

    fn find_key(&mut self, key: &str) -> Option<Self::Item>;

    fn count(&mut self) -> usize;

    fn collect(&mut self) -> Vec<(String, Self::Item)>;

    fn filter<F>(&mut self, predicate: F) -> Vec<(String, Self::Item)> where
        F: Fn(&str, &Self::Item) -> bool,

        requires
            forall|k: &str, x: &Self::Item| call_requires(predicate, (k, x)),
    ;

    fn map<F, R>(&mut self, mapper: F) -> Vec<(String, R)> where F: Fn(String, Self::Item) -> R
        requires
            forall|k: String, x: Self::Item| call_requires(mapper, (k, x)),
    ;
}

/// The items of `s` whose flag in `keep` is set, in order.
pub open spec fn kept<T>(s: Seq<T>, keep: Seq<bool>) -> Seq<T>
    decreases s.len(),
{
    if s.len() == 0 || keep.len() == 0 {
        Seq::empty()
    } else if keep.last() {
        kept(s.drop_last(), keep.drop_last()).push(s.last())
    } else {
        kept(s.drop_last(), keep.drop_last())
    }
}

/// The keys and views of keyed values.
pub open spec fn pair_views(v: Seq<(String, SerdeCoreValue)>) -> Seq<(Seq<char>, JsonView)> {
    v.map_values(|p: (String, SerdeCoreValue)| (p.0@, p.1@))
}

/// The entries an ordered map holds after inserting `pairs` one by one into
/// an empty one: sorted by key, a later pair with a key replacing an earlier.
pub open spec fn collected_entries(pairs: Seq<(Seq<char>, JsonView)>) -> Seq<(Seq<char>, JsonView)>
    decreases pairs.len(),
{
    if pairs.len() == 0 {
        Seq::empty()
    } else {
        obj_set(collected_entries(pairs.drop_last()), pairs.last().0, pairs.last().1)
    }
}

/// `a - b`, or zero where `b` is the larger.
pub open spec fn sat_sub(a: nat, b: nat) -> nat {
    if a >= b {
        (a - b) as nat
    } else {
        0
    }
}

/// `index + k`, or `usize::MAX` where that sum would not fit.
fn advance(index: usize, k: usize) -> (r: usize)
    ensures
        r == if index + k <= usize::MAX {
            (index + k) as usize
        } else {
            usize::MAX
        },
{
    if index <= usize::MAX - k {
        index + k
    } else {
        usize::MAX
    }
}

/// The views of a list of batches.
pub open spec fn batch_views(bs: Seq<Vec<SerdeDynamicValue>>) -> Seq<Seq<JsonView>> {
    bs.map_values(|b: Vec<SerdeDynamicValue>| dynamic_views(b@))
}

/// Batches as a walk hands them out with batch size `size`: none is empty,
/// each but the last holds exactly `size` items, and the last at most
/// `size`; a size of zero puts everything in one batch.
pub open spec fn well_batched<T>(bs: Seq<Seq<T>>, size: nat) -> bool {
    &&& forall|j: int| 0 <= j < bs.len() ==> (#[trigger] bs[j]).len() > 0
    &&& forall|j: int| 0 <= j < bs.len() - 1 ==> (#[trigger] bs[j]).len() == size
    &&& (bs.len() > 0 && size > 0) ==> bs.last().len() <= size
}

proof fn lemma_batches_push(bs: Seq<Vec<SerdeDynamicValue>>, b: Vec<SerdeDynamicValue>)
    ensures
        batch_views(bs.push(b)) == batch_views(bs).push(dynamic_views(b@)),
        batch_views(bs.push(b)).flatten_alt() == batch_views(bs).flatten_alt() + dynamic_views(
            b@,
        ),
{
    let s = batch_views(bs).push(dynamic_views(b@));
    assert(batch_views(bs.push(b)) =~= s);
    assert(s.drop_last() =~= batch_views(bs));
}

/// An iterator over the items of an array.  Besides the items still to come
/// it keeps the position that `size_hint` reports from; `count` moves that
/// position to the end and leaves the items to be walked.
pub struct SerdeArrayIterator {
    items: Vec<SerdeDynamicValue>,
    pos: usize,
    index: usize,
}

impl SerdeArrayIterator {
    #[verifier::type_invariant]
    closed spec fn inv(self) -> bool {
        self.pos <= self.items.len()
    }

    /// An iterator over these items, in order.
    pub fn new(array: Vec<SerdeDynamicValue>) -> (r: Self)
        ensures
            r.pending() == array@,
            r.reported() == array@.len(),
    {
        let r = SerdeArrayIterator { items: array, pos: 0, index: 0 };
        assert(r.items@.skip(0) =~= r.items@);
        r
    }
}

impl ArrayIterator for SerdeArrayIterator {
    type Item = SerdeDynamicValue;

    closed spec fn pending(&self) -> Seq<SerdeDynamicValue> {
        self.items@.skip(self.pos as int)
    }

    closed spec fn reported(&self) -> nat {
        if self.index <= self.items.len() {
            (self.items.len() - self.index) as nat
        } else {
            0
        }
    }

    fn next(&mut self) -> (r: Option<SerdeDynamicValue>)
        ensures
            old(self).pending().len() > 0 ==> (r matches Some(x) && x@ == old(self).pending()[0]@
                && final(self).pending() == old(self).pending().drop_first() && final(self).reported()
                == sat_sub(old(self).reported(), 1)),
            old(self).pending().len() == 0 ==> r is None && final(self).pending() == old(self).pending()
                && final(self).reported() == old(self).reported(),
    {
        proof {
            use_type_invariant(&*self);
        }
        if self.pos < self.items.len() {
            let x = self.items[self.pos].clone();
            self.pos = self.pos + 1;
            self.index = advance(self.index, 1);
            proof {
                assert(self.items@.skip(self.pos as int) =~= old(self).pending().drop_first());
            }
            Some(x)
        } else {
            None
        }
    }

    fn size_hint(&self) -> (r: (usize, Option<usize>))
        ensures
            r.0 == self.reported(),
            r.1 == Some(r.0),
    {
        let remaining = if self.index <= self.items.len() {
            self.items.len() - self.index
        } else {
            0
        };
        (remaining, Some(remaining))
    }

    fn nth(&mut self, n: usize) -> (r: Option<SerdeDynamicValue>)
        ensures
            n < old(self).pending().len() ==> (r matches Some(x) && x@ == old(self).pending()[n as int]@
                && final(self).pending() == old(self).pending().skip(n + 1) && final(self).reported()
                == sat_sub(old(self).reported(), (n + 1) as nat)),
            n >= old(self).pending().len() ==> r is None && final(self).pending().len() == 0
                && final(self).reported() == 0,
    {
        proof {
            use_type_invariant(&*self);
        }
        if n < self.items.len() - self.pos {
            let i = self.pos + n;
            let x = self.items[i].clone();
            self.pos = i + 1;
            self.index = advance(self.index, n + 1);
            proof {
                assert(self.items@.skip(self.pos as int) =~= old(self).pending().skip(n + 1));
            }
            Some(x)
        } else {
            self.pos = self.items.len();
            self.index = self.items.len();
            None
        }
    }

    fn count(&mut self) -> (r: usize)
        ensures
            r == old(self).pending().len(),
            final(self).pending() == old(self).pending(),
            final(self).reported() == 0,
    {
        proof {
            use_type_invariant(&*self);
        }
        let remaining = self.items.len() - self.pos;
        self.index = self.items.len();
        remaining
    }

    fn collect(&mut self) -> (r: Vec<SerdeDynamicValue>)
        ensures
            dynamic_views(r@) == dynamic_views(old(self).pending()),
            final(self).pending().len() == 0,
            final(self).reported() == sat_sub(old(self).reported(), old(self).pending().len()),
    {
        proof {
            use_type_invariant(&*self);
        }
        let ghost p = self.pending();
        let start = self.pos;
        let mut out: Vec<SerdeDynamicValue> = Vec::new();
        let mut i: usize = start;
        while i < self.items.len()
            invariant
                start <= i <= self.items.len(),
                p == self.items@.skip(start as int),
                out.len() == i - start,
                forall|j: int| 0 <= j < out.len() ==> (#[trigger] out@[j])@ == p[j]@,
            decreases self.items.len() - i,
        {
            out.push(self.items[i].clone());
            i = i + 1;
        }
        self.pos = self.items.len();
        self.index = advance(self.index, i - start);
        proof {
            assert(dynamic_views(out@) =~= dynamic_views(p));
        }
        out
    }

    fn find<F>(&mut self, predicate: F) -> (r: Option<SerdeDynamicValue>) where
        F: Fn(&SerdeDynamicValue) -> bool,

        ensures
            match r {
                Some(x) => exists|i: int|
                    0 <= i < old(self).pending().len() && x@ == (#[trigger] old(self).pending()[i])@
                        && call_ensures(predicate, (&old(self).pending()[i],), true) && (forall|j: int|
                        0 <= j < i ==> call_ensures(
                            predicate,
                            (&#[trigger] old(self).pending()[j],),
                            false,
                        )) && final(self).pending() == old(self).pending().skip(i + 1)
                        && final(self).reported() == sat_sub(old(self).reported(), (i + 1) as nat),
                None => (forall|j: int|
                    0 <= j < old(self).pending().len() ==> call_ensures(
                        predicate,
                        (&#[trigger] old(self).pending()[j],),
                        false,
                    )) && final(self).pending().len() == 0 && final(self).reported() == sat_sub(
                    old(self).reported(),
                    old(self).pending().len(),
                ),
            },
    {
        proof {
            use_type_invariant(&*self);
        }
        let ghost p = self.pending();
        let start = self.pos;
        let n = self.items.len();
        let mut i: usize = start;
        while i < n
            invariant
                start <= i <= n,
                n == self.items.len(),
                self.pos == start,
                self.index == old(self).index,
                self.items.len() == old(self).items.len(),
                p == self.items@.skip(start as int),
                p == old(self).pending(),
                forall|x: &SerdeDynamicValue| call_requires(predicate, (x,)),
                forall|j: int|
                    0 <= j < i - start ==> call_ensures(predicate, (&#[trigger] p[j],), false),
            decreases n - i,
        {
            let hit = predicate(&self.items[i]);
            proof {
                assert(p[i - start] == self.items@[i as int]);
            }
            if hit {
                let x = self.items[i].clone();
                self.pos = i + 1;
                self.index = advance(self.index, i - start + 1);
                proof {
                    assert(self.items@.skip(self.pos as int) =~= p.skip(i - start + 1));
                    assert(x@ == p[i - start]@);
                    assert(call_ensures(predicate, (&p[i - start],), true));
                    assert(old(self).pending() == p);
                    let w = i - start;
                    assert(0 <= w < p.len() && x@ == p[w]@ && call_ensures(predicate, (&p[w],), true)
                        && (forall|j: int| 0 <= j < w ==> call_ensures(predicate, (&#[trigger] p[j],), false))
                        && self.pending() == p.skip(w + 1)
                        && self.reported() == sat_sub(old(self).reported(), (w + 1) as nat));
                }
                return Some(x);
            }
            i = i + 1;
        }
        self.pos = n;
        self.index = advance(self.index, n - start);
        None
    }

    fn filter<F>(&mut self, predicate: F) -> (r: Vec<SerdeDynamicValue>) where
        F: Fn(&SerdeDynamicValue) -> bool,

        ensures
            exists|keep: Seq<bool>|
                #![trigger kept(dynamic_views(old(self).pending()), keep)]
                keep.len() == old(self).pending().len() && (forall|j: int|
                    0 <= j < keep.len() ==> call_ensures(
                        predicate,
                        (&#[trigger] old(self).pending()[j],),
                        keep[j],
                    )) && dynamic_views(r@) == kept(dynamic_views(old(self).pending()), keep),
            final(self).pending().len() == 0,
            final(self).reported() == sat_sub(old(self).reported(), old(self).pending().len()),
    {
        proof {
            use_type_invariant(&*self);
        }
        let ghost p = self.pending();
        let ghost pv = dynamic_views(p);
        let start = self.pos;
        let n = self.items.len();
        let mut i: usize = start;
        let mut out: Vec<SerdeDynamicValue> = Vec::new();
        let ghost mut keep: Seq<bool> = Seq::empty();
        while i < n
            invariant
                start <= i <= n,
                n == self.items.len(),
                p == self.items@.skip(start as int),
                pv == dynamic_views(p),
                forall|x: &SerdeDynamicValue| call_requires(predicate, (x,)),
                keep.len() == i - start,
                forall|j: int|
                    0 <= j < keep.len() ==> call_ensures(predicate, (&#[trigger] p[j], ), keep[j]),
                dynamic_views(out@) == kept(pv.take(i - start), keep),
            decreases n - i,
        {
            let hit = predicate(&self.items[i]);
            proof {
                assert(p[i - start] == self.items@[i as int]);
                assert(pv.take(i - start + 1).drop_last() =~= pv.take(i - start));
                assert(keep.push(hit).drop_last() =~= keep);
            }
            if hit {
                let ghost before = out@;
                out.push(self.items[i].clone());
                proof {
                    assert(dynamic_views(out@) =~= dynamic_views(before).push(pv[i - start]));
                }
            }
            proof {
                keep = keep.push(hit);
            }
            i = i + 1;
        }
        self.pos = n;
        self.index = advance(self.index, n - start);
        proof {
            assert(pv.take(n - start) =~= pv);
        }
        out
    }

    fn map<F, R>(&mut self, mapper: F) -> (r: Vec<R>) where F: Fn(SerdeDynamicValue) -> R
        ensures
            exists|args: Seq<SerdeDynamicValue>|
                #![trigger args.len()]
                args.len() == r.len() && r.len() == old(self).pending().len() && forall|j: int|
                    0 <= j < r.len() ==> (#[trigger] args[j])@ == old(self).pending()[j]@
                        && call_ensures(mapper, (args[j],), r@[j]),
            final(self).pending().len() == 0,
            final(self).reported() == sat_sub(old(self).reported(), old(self).pending().len()),
    {
        proof {
            use_type_invariant(&*self);
        }
        let ghost p = self.pending();
        let start = self.pos;
        let n = self.items.len();
        let mut i: usize = start;
        let mut out: Vec<R> = Vec::new();
        let ghost mut args: Seq<SerdeDynamicValue> = Seq::empty();
        while i < n
            invariant
                start <= i <= n,
                n == self.items.len(),
                p == self.items@.skip(start as int),
                forall|x: SerdeDynamicValue| call_requires(mapper, (x,)),
                out.len() == i - start,
                args.len() == out.len(),
                forall|j: int|
                    0 <= j < out.len() ==> (#[trigger] args[j])@ == p[j]@ && call_ensures(
                        mapper,
                        (args[j],),
                        out@[j],
                    ),
            decreases n - i,
        {
            let c = self.items[i].clone();
            proof {
                assert(p[i - start] == self.items@[i as int]);
            }
            let ghost cc = c;
            let y = mapper(c);
            out.push(y);
            proof {
                args = args.push(cc);
            }
            i = i + 1;
        }
        self.pos = n;
        self.index = advance(self.index, n - start);
        out
    }

    fn for_each_batch<F>(&mut self, batch_size: usize, processor: F) -> (r: usize) where
        F: Fn(Vec<SerdeDynamicValue>),

        ensures
            r == old(self).pending().len(),
            exists|bs: Seq<Vec<SerdeDynamicValue>>|
                #![trigger batch_views(bs)]
                batch_views(bs).flatten_alt() == dynamic_views(old(self).pending())
                    && well_batched(batch_views(bs), batch_size as nat) && forall|j: int|
                    0 <= j < bs.len() ==> call_ensures(processor, (#[trigger] bs[j],), ()),
            final(self).pending().len() == 0,
            final(self).reported() == sat_sub(old(self).reported(), old(self).pending().len()),
    {
        proof {
            use_type_invariant(&*self);
        }
        let ghost p = self.pending();
        let ghost pv = dynamic_views(p);
        let start = self.pos;
        let n = self.items.len();
        let mut i: usize = start;
        let mut total: usize = 0;
        let mut batch: Vec<SerdeDynamicValue> = Vec::new();
        let ghost mut bs: Seq<Vec<SerdeDynamicValue>> = Seq::empty();
        proof {
            assert(batch_views(bs).flatten_alt() + dynamic_views(batch@) =~= pv.take(0));
        }
        while i < n
            invariant
                start <= i <= n,
                n == self.items.len(),
                p == self.items@.skip(start as int),
                pv == dynamic_views(p),
                forall|v: Vec<SerdeDynamicValue>| call_requires(processor, (v,)),
                total + batch.len() == i - start,
                batch_views(bs).flatten_alt() + dynamic_views(batch@) == pv.take(i - start),
                forall|j: int| 0 <= j < bs.len() ==> (#[trigger] batch_views(bs)[j]).len() == batch_size,
                bs.len() > 0 ==> batch_size > 0,
                batch_size == 0 || batch.len() < batch_size,
                forall|j: int| 0 <= j < bs.len() ==> call_ensures(processor, (#[trigger] bs[j],), ()),
            decreases n - i,
        {
            let item = self.items[i].clone();
            let ghost before = batch@;
            proof {
                assert(p[i - start] == self.items@[i as int]);
                assert(pv[i - start] == item@);
            }
            batch.push(item);
            proof {
                assert(dynamic_views(batch@) =~= dynamic_views(before).push(item@));
                assert(pv.take(i - start + 1) =~= pv.take(i - start).push(pv[i - start]));
                assert(batch_views(bs).flatten_alt() + dynamic_views(batch@) =~= (batch_views(
                    bs,
                ).flatten_alt() + dynamic_views(before)).push(item@));
            }
            if batch.len() == batch_size {
                total = total + batch.len();
                let full = batch;
                batch = Vec::new();
                let ghost g = full;
                processor(full);
                proof {
                    lemma_batches_push(bs, g);
                    assert(dynamic_views(batch@) =~= Seq::<JsonView>::empty());
                    let nb = bs.push(g);
                    assert forall|j: int| 0 <= j < nb.len() implies (#[trigger] batch_views(
                        nb,
                    )[j]).len() == batch_size by {
                        if j < bs.len() {
                            assert(batch_views(nb)[j] == batch_views(bs)[j]);
                        }
                    }
                    assert forall|j: int| 0 <= j < nb.len() implies call_ensures(
                        processor,
                        (#[trigger] nb[j],),
                        (),
                    ) by {
                        if j < bs.len() {
                            assert(nb[j] == bs[j]);
                        }
                    }
                    bs = nb;
                    assert(batch_views(bs).flatten_alt() + dynamic_views(batch@) =~= pv.take(
                        i - start + 1,
                    ));
                }
            }
            i = i + 1;
        }
        proof {
            assert(pv.take(n - start) =~= pv);
        }
        if batch.len() > 0 {
            total = total + batch.len();
            let ghost g = batch;
            processor(batch);
            proof {
                lemma_batches_push(bs, g);
                let nb = bs.push(g);
                assert forall|j: int| 0 <= j < nb.len() implies call_ensures(
                    processor,
                    (#[trigger] nb[j],),
                    (),
                ) by {
                    if j < bs.len() {
                        assert(nb[j] == bs[j]);
                    }
                }
                let vs = batch_views(nb);
                assert forall|j: int| 0 <= j < vs.len() implies (#[trigger] vs[j]).len() > 0 by {
                    if j < bs.len() {
                        assert(vs[j] == batch_views(bs)[j]);
                    }
                }
                assert forall|j: int| 0 <= j < vs.len() - 1 implies (#[trigger] vs[j]).len()
                    == batch_size by {
                    assert(vs[j] == batch_views(bs)[j]);
                }
                assert(well_batched(vs, batch_size as nat));
                assert(vs.flatten_alt() == dynamic_views(old(self).pending()));
                bs = nb;
            }
        } else {
            proof {
                assert(dynamic_views(batch@) =~= Seq::<JsonView>::empty());
                assert(batch_views(bs).flatten_alt() =~= pv);
                let vs = batch_views(bs);
                assert forall|j: int| 0 <= j < vs.len() implies (#[trigger] vs[j]).len() > 0 by {
                    assert(vs[j].len() == batch_size);
                }
                assert(well_batched(vs, batch_size as nat));
            }
        }
        self.pos = n;
        self.index = advance(self.index, n - start);
        total
    }
}

/// An iterator over the entries of an object, in key order.  Besides the
/// entries still to come it keeps the position that `size_hint` reports
/// from; `count` moves that position to the end and leaves the entries to be
/// walked.
pub struct SerdeObjectIterator {
    entries: Vec<(String, SerdeCoreValue)>,
    pos: usize,
    index: usize,
}

impl SerdeObjectIterator {
    #[verifier::type_invariant]
    closed spec fn inv(self) -> bool {
        self.pos <= self.entries.len()
    }

    /// An iterator over the entries an ordered map holds after inserting
    /// these pairs in turn: sorted by key, the last pair with a key winning.
    pub fn new(map: Vec<(String, SerdeCoreValue)>) -> (r: Self)
        ensures
            pair_views(r.pending()) == collected_entries(pair_views(map@)),
            r.reported() == r.pending().len(),
    {
        let mut obj = JsonValue::new_object();
        let ghost pv = pair_views(map@);
        let mut i: usize = 0;
        proof {
            assert(pv.take(0) =~= Seq::<(Seq<char>, JsonView)>::empty());
        }
        while i < map.len()
            invariant
                pv == pair_views(map@),
                i <= map.len(),
                obj@ == JsonView::Object(collected_entries(pv.take(i as int))),
                obj@.wf(),
            decreases map.len() - i,
        {
            let v = map[i].1.clone();
            let j = v.into_serde_value();
            proof {
                lemma_set_key_wf(obj@, map@[i as int].0@, j@);
                assert(pv.take(i + 1).drop_last() =~= pv.take(i as int));
                assert(pv.take(i + 1).last() == pv[i as int]);
            }
            obj.set_key(map[i].0.as_str(), j);
            i = i + 1;
        }
        proof {
            assert(pv.take(i as int) =~= pv);
        }
        let mut out: Vec<(String, SerdeCoreValue)> = Vec::new();
        match obj {
            JsonValue::Object(entries) => {
                let ghost all = entries@;
                proof {
                    lemma_view_entries(all);
                }
                let n = entries.len();
                let mut rest = entries;
                let mut k: usize = 0;
                while k < n
                    invariant
                        n == all.len(),
                        view_entries(all) == collected_entries(pv),
                        JsonView::Object(view_entries(all)).wf(),
                        view_entries(all).len() == all.len(),
                        forall|j: int|
                            0 <= j < all.len() ==> #[trigger] view_entries(all)[j] == (all[j].0@, all[j].1@),
                        k <= n,
                        rest@ == all.skip(k as int),
                        out.len() == k,
                        forall|j: int|
                            0 <= j < k ==> (#[trigger] out@[j]).0@ == all[j].0@ && out@[j].1@ == all[j].1@,
                    decreases n - k,
                {
                    let (key, v) = rest.remove(0);
                    proof {
                        assert(all[k as int] == (key, v));
                        assert(rest@ =~= all.skip(k + 1));
                        assert(view_entries(all)[k as int].1.wf());
                    }
                    out.push((key, SerdeCoreValue::wrap(v)));
                    k = k + 1;
                }
                proof {
                    assert(pair_views(out@) =~= view_entries(all));
                }
            },
            _ => {},
        }
        let r = SerdeObjectIterator { entries: out, pos: 0, index: 0 };
        assert(r.entries@.skip(0) =~= r.entries@);
        r
    }
}

/// The entries of a well-formed object, each value wrapped.
fn wrap_object_entries(entries: Vec<(String, JsonValue)>) -> (r: Vec<(String, SerdeCoreValue)>)
    requires
        JsonView::Object(view_entries(entries@)).wf(),
    ensures
        pair_views(r@) == view_entries(entries@),
{
    let ghost all = entries@;
    proof {
        lemma_view_entries(all);
    }
    let n = entries.len();
    let mut rest = entries;
    let mut out: Vec<(String, SerdeCoreValue)> = Vec::new();
    let mut k: usize = 0;
    while k < n
        invariant
            n == all.len(),
            JsonView::Object(view_entries(all)).wf(),
            view_entries(all).len() == all.len(),
            forall|j: int|
                0 <= j < all.len() ==> #[trigger] view_entries(all)[j] == (all[j].0@, all[j].1@),
            k <= n,
            rest@ == all.skip(k as int),
            out.len() == k,
            forall|j: int|
                0 <= j < k ==> (#[trigger] out@[j]).0@ == all[j].0@ && out@[j].1@ == all[j].1@,
        decreases n - k,
    {
        let (key, v) = rest.remove(0);
        proof {
            assert(all[k as int] == (key, v));
            assert(rest@ =~= all.skip(k + 1));
            assert(view_entries(all)[k as int].1.wf());
        }
        out.push((key, SerdeCoreValue::wrap(v)));
        k = k + 1;
    }
    proof {
        assert(pair_views(out@) =~= view_entries(all));
    }
    out
}

/// The items of a well-formed array, each wrapped.
fn wrap_array_items(items: Vec<JsonValue>) -> (r: Vec<SerdeDynamicValue>)
    requires
        JsonView::Array(view_items(items@)).wf(),
    ensures
        dynamic_views(r@) == view_items(items@),
{
    let ghost all = items@;
    proof {
        lemma_view_items(all);
    }
    let n = items.len();
    let mut rest = items;
    let mut out: Vec<SerdeDynamicValue> = Vec::new();
    let mut k: usize = 0;
    while k < n
        invariant
            n == all.len(),
            JsonView::Array(view_items(all)).wf(),
            view_items(all).len() == all.len(),
            forall|j: int| 0 <= j < all.len() ==> #[trigger] view_items(all)[j] == all[j]@,
            k <= n,
            rest@ == all.skip(k as int),
            out.len() == k,
            forall|j: int| 0 <= j < k ==> (#[trigger] out@[j])@ == all[j]@,
        decreases n - k,
    {
        let v = rest.remove(0);
        proof {
            assert(all[k as int] == v);
            assert(rest@ =~= all.skip(k + 1));
            let a = view_items(all);
            crate::value::lemma_item_wf(JsonView::Array(a), k as int);
        }
        out.push(SerdeDynamicValue::wrap(v));
        k = k + 1;
    }
    proof {
        assert(dynamic_views(out@) =~= view_items(all));
    }
    out
}

/// An iterator over the entries of an object.
fn object_iterator_of(v: &JsonValue) -> (r: ModelResult<SerdeObjectIterator>)
    requires
        v@.wf(),
    ensures
        v@.is_object() ==> (r matches Ok(it) && pair_views(it.pending()) == v@.entries() && it.reported() == it.pending().len()),
        !v@.is_object() ==> (r matches Err(e) && e@ == ModelErrorView::InvalidData(
            "Value is not an object"@,
        )),
{
    match v.entries_copy() {
        Some(entries) => {
            let wrapped = wrap_object_entries(entries);
            let it = SerdeObjectIterator { entries: wrapped, pos: 0, index: 0 };
            assert(it.entries@.skip(0) =~= it.entries@);
            Ok(it)
        },
        None => Err(ModelError::invalid_data("Value is not an object")),
    }
}

/// An iterator over the items of an array.
fn array_iterator_of(v: &JsonValue) -> (r: ModelResult<SerdeArrayIterator>)
    requires
        v@.wf(),
    ensures
        v@.is_array() ==> (r matches Ok(it) && dynamic_views(it.pending()) == v@.items() && it.reported() == it.pending().len()),
        !v@.is_array() ==> (r matches Err(e) && e@ == ModelErrorView::InvalidData(
            "Value is not an array"@,
        )),
{
    match v.items_copy() {
        Some(items) => {
            let wrapped = wrap_array_items(items);
            Ok(SerdeArrayIterator::new(wrapped))
        },
        None => Err(ModelError::invalid_data("Value is not an array")),
    }
}

impl SerdeCoreValue {
    /// An iterator over the entries of an object, in key order.
    pub fn iter_object(&self) -> (r: ModelResult<SerdeObjectIterator>)
        ensures
            self@.is_object() ==> (r matches Ok(it) && pair_views(it.pending()) == self@.entries()
                && it.reported() == it.pending().len()),
            !self@.is_object() ==> (r matches Err(e) && e@ == ModelErrorView::InvalidData(
                "Value is not an object"@,
            )),
    {
        object_iterator_of(self.json())
    }

    /// An iterator over the items of an array.
    pub fn iter_array(&self) -> (r: ModelResult<SerdeArrayIterator>)
        ensures
            self@.is_array() ==> (r matches Ok(it) && dynamic_views(it.pending()) == self@.items()
                && it.reported() == it.pending().len()),
            !self@.is_array() ==> (r matches Err(e) && e@ == ModelErrorView::InvalidData(
                "Value is not an array"@,
            )),
    {
        array_iterator_of(self.json())
    }
}

impl SerdeDynamicValue {
    /// An iterator over the entries of an object, in key order.
    pub fn iter_object(&self) -> (r: ModelResult<SerdeObjectIterator>)
        ensures
            self@.is_object() ==> (r matches Ok(it) && pair_views(it.pending()) == self@.entries()
                && it.reported() == it.pending().len()),
            !self@.is_object() ==> (r matches Err(e) && e@ == ModelErrorView::InvalidData(
                "Value is not an object"@,
            )),
    {
        object_iterator_of(self.json())
    }

    /// An iterator over the items of an array.
    pub fn iter_array(&self) -> (r: ModelResult<SerdeArrayIterator>)
        ensures
            self@.is_array() ==> (r matches Ok(it) && dynamic_views(it.pending()) == self@.items()
                && it.reported() == it.pending().len()),
            !self@.is_array() ==> (r matches Err(e) && e@ == ModelErrorView::InvalidData(
                "Value is not an array"@,
            )),
    {
        array_iterator_of(self.json())
    }
}

impl ObjectIterator for SerdeObjectIterator {
    type Item = SerdeCoreValue;

    closed spec fn pending(&self) -> Seq<(String, SerdeCoreValue)> {
        self.entries@.skip(self.pos as int)
    }

    closed spec fn reported(&self) -> nat {
        if self.index <= self.entries.len() {
            (self.entries.len() - self.index) as nat
        } else {
            0
        }
    }

    fn next(&mut self) -> (r: Option<(String, SerdeCoreValue)>)
        ensures
            old(self).pending().len() > 0 ==> (r matches Some(x) && x.0@ == old(self).pending()[0].0@
                && x.1@ == old(self).pending()[0].1@ && final(self).pending() == old(self).pending().drop_first()
                && final(self).reported() == sat_sub(old(self).reported(), 1)),
            old(self).pending().len() == 0 ==> r is None && final(self).pending() == old(self).pending()
                && final(self).reported() == old(self).reported(),
    {
        proof {
            use_type_invariant(&*self);
        }
        if self.pos < self.entries.len() {
            let k = self.entries[self.pos].0.clone();
            let v = self.entries[self.pos].1.clone();
            self.pos = self.pos + 1;
            self.index = advance(self.index, 1);
            proof {
                assert(self.entries@.skip(self.pos as int) =~= old(self).pending().drop_first());
            }
            Some((k, v))
        } else {
            None
        }
    }

    fn size_hint(&self) -> (r: (usize, Option<usize>))
        ensures
            r.0 == self.reported(),
            r.1 == Some(r.0),
    {
        let remaining = if self.index <= self.entries.len() {
            self.entries.len() - self.index
        } else {
            0
        };
        (remaining, Some(remaining))
    }

    fn find_key(&mut self, key: &str) -> (r: Option<SerdeCoreValue>)
        ensures
            match r {
                Some(x) => exists|i: int|
                    0 <= i < old(self).pending().len() && (#[trigger] old(self).pending()[i]).0@
                        == key@ && x@ == old(self).pending()[i].1@ && (forall|j: int|
                        0 <= j < i ==> (#[trigger] old(self).pending()[j]).0@ != key@) && final(self).pending() == old(self).pending().skip(i + 1)
                        && final(self).reported() == sat_sub(old(self).reported(), (i + 1) as nat),
                None => (forall|j: int|
                    0 <= j < old(self).pending().len() ==> (#[trigger] old(self).pending()[j]).0@
                        != key@) && final(self).pending().len() == 0 && final(self).reported()
                    == sat_sub(old(self).reported(), old(self).pending().len()),
            },
    {
        proof {
            use_type_invariant(&*self);
        }
        let ghost p = self.pending();
        let start = self.pos;
        let n = self.entries.len();
        let mut i: usize = start;
        while i < n
            invariant
                start <= i <= n,
                n == self.entries.len(),
                self.pos == start,
                self.index == old(self).index,
                self.entries.len() == old(self).entries.len(),
                p == self.entries@.skip(start as int),
                p == old(self).pending(),
                forall|j: int| 0 <= j < i - start ==> (#[trigger] p[j]).0@ != key@,
            decreases n - i,
        {
            proof {
                assert(p[i - start] == self.entries@[i as int]);
            }
            if compare_text(self.entries[i].0.as_str(), key) == TextOrder::Equal {
                let x = self.entries[i].1.clone();
                self.pos = i + 1;
                self.index = advance(self.index, i - start + 1);
                proof {
                    assert(self.entries@.skip(self.pos as int) =~= p.skip(i - start + 1));
                    let w = i - start;
                    assert(0 <= w < p.len() && p[w].0@ == key@ && x@ == p[w].1@ && (forall|j: int|
                        0 <= j < w ==> (#[trigger] p[j]).0@ != key@) && self.pending() == p.skip(
                        w + 1,
                    ) && self.reported() == sat_sub(old(self).reported(), (w + 1) as nat));
                }
                return Some(x);
            }
            i = i + 1;
        }
        self.pos = n;
        self.index = advance(self.index, n - start);
        None
    }

    fn count(&mut self) -> (r: usize)
        ensures
            r == old(self).pending().len(),
            final(self).pending() == old(self).pending(),
            final(self).reported() == 0,
    {
        proof {
            use_type_invariant(&*self);
        }
        let remaining = self.entries.len() - self.pos;
        self.index = self.entries.len();
        remaining
    }

    fn collect(&mut self) -> (r: Vec<(String, SerdeCoreValue)>)
        ensures
            pair_views(r@) == pair_views(old(self).pending()),
            final(self).pending().len() == 0,
            final(self).reported() == sat_sub(old(self).reported(), old(self).pending().len()),
    {
        proof {
            use_type_invariant(&*self);
        }
        let ghost p = self.pending();
        let start = self.pos;
        let mut out: Vec<(String, SerdeCoreValue)> = Vec::new();
        let mut i: usize = start;
        while i < self.entries.len()
            invariant
                start <= i <= self.entries.len(),
                p == self.entries@.skip(start as int),
                out.len() == i - start,
                forall|j: int|
                    0 <= j < out.len() ==> (#[trigger] out@[j]).0@ == p[j].0@ && out@[j].1@
                        == p[j].1@,
            decreases self.entries.len() - i,
        {
            out.push((self.entries[i].0.clone(), self.entries[i].1.clone()));
            i = i + 1;
        }
        self.pos = self.entries.len();
        self.index = advance(self.index, i - start);
        proof {
            assert(pair_views(out@) =~= pair_views(p));
        }
        out
    }

    fn filter<F>(&mut self, predicate: F) -> (r: Vec<(String, SerdeCoreValue)>) where
        F: Fn(&str, &SerdeCoreValue) -> bool,

        ensures
            exists|keep: Seq<bool>, keys: Seq<&str>|
                #![trigger kept(pair_views(old(self).pending()), keep), keys.len()]
                keep.len() == old(self).pending().len() && keys.len() == keep.len() && (forall|
                    j: int,
                |
                    0 <= j < keep.len() ==> (#[trigger] keys[j])@ == old(self).pending()[j].0@
                        && call_ensures(predicate, (keys[j], &old(self).pending()[j].1), keep[j]))
                    && pair_views(r@) == kept(pair_views(old(self).pending()), keep),
            final(self).pending().len() == 0,
            final(self).reported() == sat_sub(old(self).reported(), old(self).pending().len()),
    {
        proof {
            use_type_invariant(&*self);
        }
        let ghost p = self.pending();
        let ghost pv = pair_views(p);
        let start = self.pos;
        let n = self.entries.len();
        let mut i: usize = start;
        let mut out: Vec<(String, SerdeCoreValue)> = Vec::new();
        let ghost mut keep: Seq<bool> = Seq::empty();
        let ghost mut keys: Seq<&str> = Seq::empty();
        while i < n
            invariant
                start <= i <= n,
                n == self.entries.len(),
                p == self.entries@.skip(start as int),
                pv == pair_views(p),
                forall|k: &str, x: &SerdeCoreValue| call_requires(predicate, (k, x)),
                keep.len() == i - start,
                keys.len() == keep.len(),
                forall|j: int|
                    0 <= j < keep.len() ==> (#[trigger] keys[j])@ == p[j].0@ && call_ensures(
                        predicate,
                        (keys[j], &p[j].1),
                        keep[j],
                    ),
                pair_views(out@) == kept(pv.take(i - start), keep),
            decreases n - i,
        {
            let k = self.entries[i].0.as_str();
            let hit = predicate(k, &self.entries[i].1);
            proof {
                assert(p[i - start] == self.entries@[i as int]);
                assert(pv.take(i - start + 1).drop_last() =~= pv.take(i - start));
                assert(keep.push(hit).drop_last() =~= keep);
                assert(k@ == p[i - start].0@ && call_ensures(predicate, (k, &p[i - start].1), hit));
            }
            if hit {
                let ghost before = out@;
                out.push((self.entries[i].0.clone(), self.entries[i].1.clone()));
                proof {
                    assert(pair_views(out@) =~= pair_views(before).push(pv[i - start]));
                }
            }
            proof {
                keep = keep.push(hit);
                keys = keys.push(k);
            }
            i = i + 1;
        }
        self.pos = n;
        self.index = advance(self.index, n - start);
        proof {
            assert(pv.take(n - start) =~= pv);
        }
        out
    }

    fn map<F, R>(&mut self, mapper: F) -> (r: Vec<(String, R)>) where
        F: Fn(String, SerdeCoreValue) -> R,

        ensures
            exists|args: Seq<(String, SerdeCoreValue)>|
                #![trigger args.len()]
                args.len() == r.len() && r.len() == old(self).pending().len() && forall|j: int|
                    0 <= j < r.len() ==> (#[trigger] args[j]).0@ == old(self).pending()[j].0@
                        && args[j].1@ == old(self).pending()[j].1@ && r@[j].0@ == old(self).pending()[j].0@ && call_ensures(mapper, (args[j].0, args[j].1), r@[j].1),
            final(self).pending().len() == 0,
            final(self).reported() == sat_sub(old(self).reported(), old(self).pending().len()),
    {
        proof {
            use_type_invariant(&*self);
        }
        let ghost p = self.pending();
        let start = self.pos;
        let n = self.entries.len();
        let mut i: usize = start;
        let mut out: Vec<(String, R)> = Vec::new();
        let ghost mut args: Seq<(String, SerdeCoreValue)> = Seq::empty();
        while i < n
            invariant
                start <= i <= n,
                n == self.entries.len(),
                p == self.entries@.skip(start as int),
                forall|k: String, x: SerdeCoreValue| call_requires(mapper, (k, x)),
                out.len() == i - start,
                args.len() == out.len(),
                forall|j: int|
                    0 <= j < out.len() ==> (#[trigger] args[j]).0@ == p[j].0@ && args[j].1@
                        == p[j].1@ && out@[j].0@ == p[j].0@ && call_ensures(
                        mapper,
                        (args[j].0, args[j].1),
                        out@[j].1,
                    ),
            decreases n - i,
        {
            let k = self.entries[i].0.clone();
            let c = self.entries[i].1.clone();
            let key = self.entries[i].0.clone();
            proof {
                assert(p[i - start] == self.entries@[i as int]);
            }
            let ghost arg = (k, c);
            let y = mapper(k, c);
            out.push((key, y));
            proof {
                args = args.push(arg);
            }
            i = i + 1;
        }
        self.pos = n;
        self.index = advance(self.index, n - start);
        out
    }
}

} // verus!

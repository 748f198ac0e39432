use vstd::prelude::*;
use crate::analysis::{
    json_equiv, matches_schema, merge_deep, merge_entries, merge_objects, merge_object_entries,
};
use crate::store::{with_path, with_same_at, with_value_at};
use crate::assoc::{assoc_get, assoc_put, assoc_remove, keys_distinct};
use crate::core_value::set_by_path_outcome;
use crate::hashing::{HashStepView, hash_plan};
use crate::sampling::array_sample;
use crate::number::{JsonNumber, float_bits_negative, float_bits_zero};
use crate::manager::{find_record, put_record, remove_record, model_records};
use crate::navigation::{navigate, path_set, loose_path_set, empty_object};
use crate::path::{first_empty, normalized_path, path_check, path_segments, valid_path};
use crate::text::{
    text_lt, lemma_text_lt_irreflexive, lemma_text_lt_asymmetric, contains_char, index_of, join_with,
    split_on,
};
use crate::value::{
    JsonView, keys_sorted, obj_get, obj_keys, obj_set, obj_remove, lemma_obj_set_get, lemma_obj_set_get_other,
    lemma_obj_get_sorted, lemma_obj_get_none, lemma_obj_get_some, lemma_keys_sorted_drop_first,
};

verus! {

/// Reading a key of an object right after writing it gives what was written,
/// and every other key reads as before.
pub proof fn law_get_after_set(v: JsonView, k: Seq<char>, x: JsonView, other: Seq<char>)
    requires
        v.is_object(),
    ensures
        v.set_key(k, x).get_key(k) == Some(x),
        other != k ==> v.set_key(k, x).get_key(other) == v.get_key(other),
{
    lemma_obj_set_get(v.entries(), k, x);
    if other != k {
        lemma_obj_set_get_other(v.entries(), k, x, other);
    }
}

/// After removing a key from a well-formed object, the key is gone and every
/// other key reads as before.
pub proof fn law_get_after_remove(v: JsonView, k: Seq<char>, other: Seq<char>)
    requires
        v.wf(),
        v.is_object(),
    ensures
        v.remove_key(k).get_key(k) is None,
        other != k ==> v.remove_key(k).get_key(other) == v.get_key(other),
{
    lemma_remove_get(v.entries(), k, other);
}

proof fn lemma_remove_get(e: Seq<(Seq<char>, JsonView)>, k: Seq<char>, other: Seq<char>)
    requires
        keys_sorted(e),
    ensures
        obj_get(obj_remove(e, k), k) is None,
        other != k ==> obj_get(obj_remove(e, k), other) == obj_get(e, other),
    decreases e.len(),
{
    let r = obj_remove(e, k);
    if e.len() > 0 {
        lemma_keys_sorted_drop_first(e);
        if e[0].0 == k {
            assert(r == e.drop_first());
            assert forall|j: int| 0 <= j < r.len() implies (#[trigger] r[j]).0 != k by {
                assert(text_lt(e[0].0, r[j].0));
                lemma_text_lt_irreflexive(k);
            }
            lemma_obj_get_none(r, k);
            if other != k {
                assert(obj_get(e, other) == obj_get(e.drop_first(), other));
            }
        } else {
            lemma_remove_get(e.drop_first(), k, other);
            let rest = obj_remove(e.drop_first(), k);
            assert(r[0] == e[0]);
            assert(r.drop_first() =~= rest);
        }
    }
}

/// Writing along a path and then reading along the same path gives what was
/// written.
pub proof fn law_navigate_after_path_set(v: JsonView, parts: Seq<Seq<char>>, x: JsonView)
    requires
        v.is_object(),
        parts.len() >= 1,
    ensures
        navigate(path_set(v, parts, x), parts) == Some(x),
    decreases parts.len(),
{
    let r = path_set(v, parts, x);
    let rest = parts.drop_first();
    if parts.len() == 1 {
        law_get_after_set(v, parts[0], x, parts[0]);
        assert(r == v.set_key(parts[0], x));
        assert(rest.len() == 0);
        assert(navigate(x, rest) == Some(x));
        assert(navigate(r, parts) == navigate(x, rest));
    } else {
        let child = match v.get_key(parts[0]) {
            Some(c) => if c.is_object() {
                c
            } else {
                empty_object()
            },
            None => empty_object(),
        };
        law_navigate_after_path_set(child, rest, x);
        let inner = path_set(child, rest, x);
        law_get_after_set(v, parts[0], inner, parts[0]);
        assert(r == v.set_key(parts[0], inner));
        assert(navigate(r, parts) == navigate(inner, rest));
    }
}

/// When a write along a path of the shared dynamic value succeeds, reading
/// along the same path gives what was written.
pub proof fn law_navigate_after_loose_path_set(v: JsonView, parts: Seq<Seq<char>>, x: JsonView)
    requires
        parts.len() >= 1,
        loose_path_set(v, parts, x).1,
    ensures
        navigate(loose_path_set(v, parts, x).0, parts) == Some(x),
    decreases parts.len(),
{
    let r = loose_path_set(v, parts, x).0;
    let rest = parts.drop_first();
    if parts.len() == 1 {
        law_get_after_set(v, parts[0], x, parts[0]);
        assert(r == v.set_key(parts[0], x));
        assert(rest.len() == 0);
        assert(navigate(r, parts) == navigate(x, rest));
    } else {
        let base = if v.is_object() {
            v
        } else {
            empty_object()
        };
        let nested = match base.get_key(parts[0]) {
            Some(c) => c,
            None => empty_object(),
        };
        let inner = loose_path_set(nested, rest, x).0;
        law_navigate_after_loose_path_set(nested, rest, x);
        law_get_after_set(base, parts[0], inner, parts[0]);
        assert(r == base.set_key(parts[0], inner));
        assert(navigate(r, parts) == navigate(inner, rest));
    }
}

/// A write along a path keeps every other path as it was: a path that
/// agrees with the written one on its first `d` keys and then takes another
/// key reads the same after the write as before.
pub proof fn law_path_set_keeps_other_paths(
    v: JsonView,
    parts: Seq<Seq<char>>,
    x: JsonView,
    q: Seq<Seq<char>>,
    d: int,
)
    requires
        0 <= d < parts.len(),
        d < q.len(),
        q.take(d) == parts.take(d),
        q[d] != parts[d],
    ensures
        navigate(path_set(v, parts, x), q) == navigate(v, q),
    decreases d,
{
    let r = path_set(v, parts, x);
    let rest = parts.drop_first();
    let qr = q.drop_first();
    if d == 0 {
        let w = if parts.len() <= 1 {
            x
        } else {
            let child = match v.get_key(parts[0]) {
                Some(c) => if c.is_object() {
                    c
                } else {
                    empty_object()
                },
                None => empty_object(),
            };
            path_set(child, rest, x)
        };
        assert(r == v.set_key(parts[0], w));
        if v.is_object() {
            law_get_after_set(v, parts[0], w, q[0]);
        }
    } else {
        assert(q[0] == q.take(d)[0]);
        assert(parts[0] == parts.take(d)[0]);
        let child = match v.get_key(parts[0]) {
            Some(c) => if c.is_object() {
                c
            } else {
                empty_object()
            },
            None => empty_object(),
        };
        let inner = path_set(child, rest, x);
        assert(qr.take(d - 1) =~= q.take(d).drop_first());
        assert(rest.take(d - 1) =~= parts.take(d).drop_first());
        law_path_set_keeps_other_paths(child, rest, x, qr, d - 1);
        assert(r == v.set_key(parts[0], inner));
        if v.is_object() {
            law_get_after_set(v, parts[0], inner, parts[0]);
            assert(navigate(r, q) == navigate(inner, qr));
            match v.get_key(parts[0]) {
                Some(c) => {
                    if !c.is_object() {
                        assert(navigate(child, qr) is None);
                        assert(navigate(c, qr) is None);
                    }
                },
                None => {
                    assert(navigate(child, qr) is None);
                },
            }
        }
    }
}

/// A write along a path of the shared dynamic value keeps every other path
/// as it was: a path that agrees with the written one on its first `d` keys
/// and then takes another key reads the same after the write as before,
/// whether the write succeeded or not.
pub proof fn law_loose_path_set_keeps_other_paths(
    v: JsonView,
    parts: Seq<Seq<char>>,
    x: JsonView,
    q: Seq<Seq<char>>,
    d: int,
)
    requires
        0 <= d < parts.len(),
        d < q.len(),
        q.take(d) == parts.take(d),
        q[d] != parts[d],
    ensures
        navigate(loose_path_set(v, parts, x).0, q) == navigate(v, q),
    decreases d,
{
    let r = loose_path_set(v, parts, x).0;
    let rest = parts.drop_first();
    let qr = q.drop_first();
    assert(empty_object().get_key(q[0]) is None);
    assert(navigate(empty_object(), q) is None);
    if !v.is_object() {
        assert(v.get_key(q[0]) is None);
        assert(navigate(v, q) is None);
    }
    if parts.len() <= 1 {
        if v.is_object() {
            law_get_after_set(v, parts[0], x, q[0]);
            assert(r == v.set_key(parts[0], x));
            assert(r.get_key(q[0]) == v.get_key(q[0]));
        } else {
            assert(r == v);
        }
    } else {
        let base = if v.is_object() {
            v
        } else {
            empty_object()
        };
        let nested = match base.get_key(parts[0]) {
            Some(c) => c,
            None => empty_object(),
        };
        let n2 = loose_path_set(nested, rest, x).0;
        let ok2 = loose_path_set(nested, rest, x).1;
        assert(base.is_object());
        if ok2 {
            assert(r == base.set_key(parts[0], n2));
        } else {
            assert(r == base);
        }
        if d == 0 {
            if ok2 {
                law_get_after_set(base, parts[0], n2, q[0]);
                assert(r.get_key(q[0]) == base.get_key(q[0]));
            }
        } else {
            assert(q[0] == q.take(d)[0]);
            assert(parts[0] == parts.take(d)[0]);
            assert(qr.take(d - 1) =~= q.take(d).drop_first());
            assert(rest.take(d - 1) =~= parts.take(d).drop_first());
            law_loose_path_set_keeps_other_paths(nested, rest, x, qr, d - 1);
            assert(empty_object().get_key(qr[0]) is None);
            assert(navigate(empty_object(), qr) is None);
            if ok2 {
                law_get_after_set(base, parts[0], n2, parts[0]);
                assert(r.get_key(q[0]) == Some(n2));
                assert(navigate(r, q) == navigate(n2, qr));
            }
            if v.is_object() {
                match v.get_key(parts[0]) {
                    Some(c) => {
                        assert(navigate(v, q) == navigate(c, qr));
                    },
                    None => {
                        assert(navigate(v, q) is None);
                    },
                }
            }
        }
    }
}

/// A write along a path of the shared dynamic value that does not succeed
/// leaves the value as it was.
pub proof fn law_failed_loose_path_set_changes_nothing(v: JsonView, parts: Seq<Seq<char>>, x: JsonView)
    requires
        parts.len() >= 1,
        !loose_path_set(v, parts, x).1,
    ensures
        loose_path_set(v, parts, x).0 == v,
    decreases parts.len(),
{
    if parts.len() > 1 {
        if !v.is_object() {
            lemma_loose_path_set_empty_succeeds(parts.drop_first(), x);
        }
    }
}

/// Writing along a path into the empty object always succeeds.
proof fn lemma_loose_path_set_empty_succeeds(parts: Seq<Seq<char>>, x: JsonView)
    requires
        parts.len() >= 1,
    ensures
        loose_path_set(empty_object(), parts, x).1,
    decreases parts.len(),
{
    if parts.len() > 1 {
        lemma_loose_path_set_empty_succeeds(parts.drop_first(), x);
        assert(empty_object().get_key(parts[0]) is None);
    }
}

/// Joining keys that hold no dot with dots and splitting the result at its
/// dots gives the keys back; so a path written as those keys joined with dots
/// reads back, after a write along the keys, what was written.
pub proof fn law_joined_path_round_trip(v: JsonView, parts: Seq<Seq<char>>, x: JsonView)
    requires
        v.is_object(),
        parts.len() >= 1,
        forall|i: int| 0 <= i < parts.len() ==> (#[trigger] parts[i]).len() > 0,
        forall|i: int| 0 <= i < parts.len() ==> !contains_char(#[trigger] parts[i], '.'),
    ensures
        path_segments(join_with(parts, '.')) == parts,
        navigate(path_set(v, parts, x), path_segments(join_with(parts, '.'))) == Some(x),
{
    lemma_split_join(parts, '.');
    lemma_join_starts_with_first(parts, '.');
    assert(parts[0].len() > 0);
    law_navigate_after_path_set(v, parts, x);
}

proof fn lemma_join_starts_with_first(pieces: Seq<Seq<char>>, sep: char)
    requires
        pieces.len() >= 1,
    ensures
        join_with(pieces, sep).len() >= pieces[0].len(),
    decreases pieces.len(),
{
    if pieces.len() > 1 {
        lemma_join_starts_with_first(pieces.drop_last(), sep);
    }
}

proof fn lemma_index_of_prefix(a: Seq<char>, b: Seq<char>, c: char)
    requires
        !contains_char(a, c),
    ensures
        index_of(a + b, c) == a.len() + index_of(b, c),
    decreases a.len(),
{
    if a.len() == 0 {
        assert(a + b =~= b);
    } else {
        assert(a[0] != c);
        assert(!contains_char(a.drop_first(), c)) by {
            if contains_char(a.drop_first(), c) {
                let i = choose|i: int| 0 <= i < a.drop_first().len() && a.drop_first()[i] == c;
                assert(a[i + 1] == c);
            }
        }
        lemma_index_of_prefix(a.drop_first(), b, c);
        assert((a + b).drop_first() =~= a.drop_first() + b);
    }
}

proof fn lemma_join_front(pieces: Seq<Seq<char>>, sep: char)
    requires
        pieces.len() >= 2,
    ensures
        join_with(pieces, sep) == pieces[0] + seq![sep] + join_with(pieces.drop_first(), sep),
    decreases pieces.len(),
{
    if pieces.len() == 2 {
        assert(pieces.drop_last() =~= seq![pieces[0]]);
        assert(pieces.drop_first() =~= seq![pieces[1]]);
        assert(join_with(pieces.drop_last(), sep) == pieces[0]);
        assert(join_with(pieces.drop_first(), sep) == pieces[1]);
        assert(join_with(pieces, sep) == join_with(pieces.drop_last(), sep) + seq![sep]
            + pieces.last());
    } else {
        let a = pieces.drop_last();
        let b = pieces.drop_first();
        lemma_join_front(a, sep);
        assert(a.drop_first() =~= b.drop_last());
        assert(b.last() == pieces.last());
        assert(a[0] == pieces[0]);
        assert(join_with(pieces, sep) == join_with(a, sep) + seq![sep] + pieces.last());
        assert(join_with(b, sep) == join_with(b.drop_last(), sep) + seq![sep] + b.last());
        assert(join_with(pieces, sep) =~= pieces[0] + seq![sep] + join_with(b, sep));
    }
}

proof fn lemma_split_join(pieces: Seq<Seq<char>>, sep: char)
    requires
        pieces.len() >= 1,
        forall|i: int| 0 <= i < pieces.len() ==> !contains_char(#[trigger] pieces[i], sep),
    ensures
        split_on(join_with(pieces, sep), sep) == pieces,
    decreases pieces.len(),
{
    if pieces.len() == 1 {
        let p = pieces[0];
        assert(!contains_char(p, sep));
        lemma_index_of_prefix(p, Seq::empty(), sep);
        assert(p + Seq::<char>::empty() =~= p);
        assert(seq![p] =~= pieces);
    } else {
        let p = pieces[0];
        let rest = pieces.drop_first();
        lemma_join_front(pieces, sep);
        let j = join_with(pieces, sep);
        let tail = join_with(rest, sep);
        assert(!contains_char(p, sep));
        assert(j =~= p + (seq![sep] + tail));
        lemma_index_of_prefix(p, seq![sep] + tail, sep);
        assert((seq![sep] + tail)[0] == sep);
        assert(index_of(j, sep) == p.len());
        assert(j.take(p.len() as int) =~= p);
        assert(j.skip(p.len() as int + 1) =~= tail);
        assert forall|i: int| 0 <= i < rest.len() implies !contains_char(#[trigger] rest[i], sep) by {
            assert(rest[i] == pieces[i + 1]);
        }
        lemma_split_join(rest, sep);
        assert(seq![p] + rest =~= pieces);
    }
}

/// A successful write along a path leaves the value readable along the
/// normalized path.
pub proof fn law_get_after_set_by_path(v: JsonView, path: Seq<char>, x: JsonView, strict: bool)
    requires
        set_by_path_outcome(v, path, x, strict) is Ok,
    ensures
        navigate(
            set_by_path_outcome(v, path, x, strict)->Ok_0,
            path_segments(normalized_path(path)),
        ) == Some(x),
{
    let n = normalized_path(path);
    crate::text::lemma_split_on_len(n, '.');
    law_navigate_after_path_set(v, path_segments(n), x);
}

/// A path passes the check for writing exactly when it is valid.
pub proof fn law_valid_path_iff_settable(path: Seq<char>)
    ensures
        valid_path(path) <==> path_check(path, false) is None,
{
    let segs = path_segments(path);
    lemma_first_empty_facts(segs);
    if path.len() > 0 && first_empty(segs) < segs.len() {
        assert(segs[first_empty(segs) as int].len() == 0);
    }
}

proof fn lemma_first_empty_facts(s: Seq<Seq<char>>)
    ensures
        first_empty(s) <= s.len(),
        forall|i: int| 0 <= i < first_empty(s) ==> (#[trigger] s[i]).len() > 0,
        first_empty(s) < s.len() ==> s[first_empty(s) as int].len() == 0,
    decreases s.len(),
{
    if s.len() > 0 && s[0].len() > 0 {
        lemma_first_empty_facts(s.drop_first());
        assert forall|i: int| 0 <= i < first_empty(s) implies (#[trigger] s[i]).len() > 0 by {
            if i > 0 {
                assert(s[i] == s.drop_first()[i - 1]);
            }
        }
    }
}

/// Every JSON value equals itself.
pub proof fn law_equiv_reflexive(v: JsonView)
    requires
        v.wf(),
    ensures
        json_equiv(v, v),
    decreases v,
{
    match v {
        JsonView::Number(n) => {},
        JsonView::Array(items) => {
            assert forall|i: int| 0 <= i < items.len() implies json_equiv(
                #[trigger] items[i],
                items[i],
            ) by {
                crate::value::lemma_item_wf(v, i);
                law_equiv_reflexive(items[i]);
            }
        },
        JsonView::Object(e) => {
            assert forall|i: int| 0 <= i < e.len() implies match obj_get(e, (#[trigger] e[i]).0) {
                Some(bv) => json_equiv(e[i].1, bv),
                None => false,
            } by {
                lemma_obj_get_sorted(e, i);
                law_equiv_reflexive(e[i].1);
            }
        },
        _ => {},
    }
}

/// Equality of JSON values is symmetric: if `a` equals `b`, then `b` equals `a`.
pub proof fn law_equiv_symmetric(a: JsonView, b: JsonView)
    requires
        a.wf(),
        b.wf(),
        json_equiv(a, b),
    ensures
        json_equiv(b, a),
    decreases a,
{
    match (a, b) {
        (JsonView::Array(x), JsonView::Array(y)) => {
            assert forall|i: int| 0 <= i < y.len() implies json_equiv(#[trigger] y[i], x[i]) by {
                assert(json_equiv(x[i], y[i]));
                crate::value::lemma_item_wf(a, i);
                crate::value::lemma_item_wf(b, i);
                law_equiv_symmetric(x[i], y[i]);
            }
        },
        (JsonView::Object(x), JsonView::Object(y)) => {
            let kx = obj_keys(x);
            let ky = obj_keys(y);
            lemma_sorted_keys_distinct(x);
            lemma_sorted_keys_distinct(y);
            kx.unique_seq_to_set();
            ky.unique_seq_to_set();
            assert(kx.to_set().subset_of(ky.to_set())) by {
                assert forall|k: Seq<char>| kx.to_set().contains(k) implies ky.to_set().contains(
                    k,
                ) by {
                    let i = choose|i: int| 0 <= i < kx.len() && kx[i] == k;
                    assert(x[i].0 == k);
                    assert(obj_get(y, (x[i]).0) is Some);
                    lemma_obj_get_some(y, k);
                    let j = choose|j: int| 0 <= j < y.len() && (#[trigger] y[j]).0 == k && y[j].1
                        == obj_get(y, k)->0;
                    assert(ky[j] == k);
                }
            }
            vstd::seq_lib::seq_to_set_is_finite(kx);
            vstd::seq_lib::seq_to_set_is_finite(ky);
            vstd::set_lib::lemma_subset_equality(kx.to_set(), ky.to_set());
            assert forall|j: int| 0 <= j < y.len() implies match obj_get(x, (#[trigger] y[j]).0) {
                Some(av) => json_equiv(y[j].1, av),
                None => false,
            } by {
                let k = y[j].0;
                assert(ky[j] == k);
                assert(ky.to_set().contains(k));
                assert(kx.to_set().contains(k));
                let i = choose|i: int| 0 <= i < kx.len() && kx[i] == k;
                assert(x[i].0 == k);
                lemma_obj_get_sorted(x, i);
                lemma_obj_get_sorted(y, j);
                assert(json_equiv(x[i].1, y[j].1));
                law_equiv_symmetric(x[i].1, y[j].1);
            }
        },
        _ => {},
    }
}

/// Equality of JSON values is transitive.
pub proof fn law_equiv_transitive(a: JsonView, b: JsonView, c: JsonView)
    requires
        a.wf(),
        b.wf(),
        c.wf(),
        json_equiv(a, b),
        json_equiv(b, c),
    ensures
        json_equiv(a, c),
    decreases a,
{
    match (a, b, c) {
        (JsonView::Array(x), JsonView::Array(y), JsonView::Array(z)) => {
            assert forall|i: int| 0 <= i < x.len() implies json_equiv(#[trigger] x[i], z[i]) by {
                assert(json_equiv(x[i], y[i]));
                assert(json_equiv(y[i], z[i]));
                crate::value::lemma_item_wf(a, i);
                crate::value::lemma_item_wf(b, i);
                crate::value::lemma_item_wf(c, i);
                law_equiv_transitive(x[i], y[i], z[i]);
            }
        },
        (JsonView::Object(x), JsonView::Object(y), JsonView::Object(z)) => {
            assert forall|i: int| 0 <= i < x.len() implies match obj_get(z, (#[trigger] x[i]).0) {
                Some(cv) => json_equiv(x[i].1, cv),
                None => false,
            } by {
                let k = x[i].0;
                assert(obj_get(y, k) is Some);
                lemma_obj_get_some(y, k);
                let j = choose|j: int| 0 <= j < y.len() && (#[trigger] y[j]).0 == k && y[j].1
                    == obj_get(y, k)->0;
                assert(obj_get(z, y[j].0) is Some);
                lemma_obj_get_some(z, k);
                let l = choose|l: int| 0 <= l < z.len() && (#[trigger] z[l]).0 == k && z[l].1
                    == obj_get(z, k)->0;
                law_equiv_transitive(x[i].1, y[j].1, z[l].1);
            }
        },
        _ => {},
    }
}

/// No double in the value is `-0.0`, the one number that equals another
/// (`0.0`) while it is written differently.
pub open spec fn no_negative_zero(v: JsonView) -> bool
    decreases v,
{
    match v {
        JsonView::Number(n) => match n {
            JsonNumber::Float(bits) => !(float_bits_zero(bits) && float_bits_negative(bits)),
            _ => true,
        },
        JsonView::Array(items) => forall|i: int|
            0 <= i < items.len() ==> no_negative_zero(#[trigger] items[i]),
        JsonView::Object(e) => forall|i: int| 0 <= i < e.len() ==> no_negative_zero(#[trigger] e[i].1),
        _ => true,
    }
}

/// Two equal values without `-0.0` are the very same value, so they have
/// the same hash plan and hence the same hash.
pub proof fn law_equal_values_share_hash_plan(a: JsonView, b: JsonView)
    requires
        a.wf(),
        b.wf(),
        no_negative_zero(a),
        no_negative_zero(b),
        json_equiv(a, b),
    ensures
        a == b,
        hash_plan(a) == hash_plan(b),
    decreases a,
{
    match (a, b) {
        (JsonView::Number(p), JsonView::Number(q)) => {
            match (p, q) {
                (JsonNumber::Float(x), JsonNumber::Float(y)) => {
                    if x != y {
                        assert(x & 0x7fff_ffff_ffff_ffffu64 == 0 && !(x >> 63u64 == 1) ==> x == 0)
                            by (bit_vector);
                        assert(y & 0x7fff_ffff_ffff_ffffu64 == 0 && !(y >> 63u64 == 1) ==> y == 0)
                            by (bit_vector);
                    }
                },
                _ => {},
            }
        },
        (JsonView::Array(x), JsonView::Array(y)) => {
            assert forall|i: int| 0 <= i < x.len() implies #[trigger] x[i] == y[i] by {
                assert(json_equiv(x[i], y[i]));
                crate::value::lemma_item_wf(a, i);
                crate::value::lemma_item_wf(b, i);
                law_equal_values_share_hash_plan(x[i], y[i]);
            }
            assert(x =~= y);
        },
        (JsonView::Object(x), JsonView::Object(y)) => {
            law_equiv_symmetric(a, b);
            assert forall|i: int| 0 <= i < x.len() implies obj_get(y, (#[trigger] x[i]).0) is Some by {
                assert(obj_get(y, x[i].0) is Some);
            }
            assert forall|j: int| 0 <= j < y.len() implies obj_get(x, (#[trigger] y[j]).0) is Some by {
                assert(obj_get(x, y[j].0) is Some);
            }
            lemma_sorted_keys_align(x, y);
            assert forall|i: int| 0 <= i < x.len() implies #[trigger] x[i] == y[i] by {
                lemma_obj_get_sorted(y, i);
                assert(json_equiv(x[i].1, y[i].1));
                law_equal_values_share_hash_plan(x[i].1, y[i].1);
            }
            assert(x =~= y);
        },
        _ => {},
    }
}

/// An array of more than a thousand items is hashed from its length and the
/// items at its five sampled positions alone: two such arrays of one length
/// whose sampled items have the same plans have the same plan.
pub proof fn law_large_array_plan_from_samples(x: Seq<JsonView>, y: Seq<JsonView>)
    requires
        x.len() == y.len(),
        x.len() > 1000,
        forall|k: int|
            0 <= k < array_sample(x.len()).len() ==> hash_plan(
                x[#[trigger] array_sample(x.len())[k] as int],
            ) == hash_plan(y[array_sample(x.len())[k] as int]),
    ensures
        hash_plan(JsonView::Array(x)) == hash_plan(JsonView::Array(y)),
{
    let pos = array_sample(x.len());
    let px = hash_plan(JsonView::Array(x));
    let py = hash_plan(JsonView::Array(y));
    assert forall|j: int| 0 <= j < pos.len() implies pos[j] < x.len() by {}
    assert(px =~= py) by {
        assert forall|j: int| 0 <= j < px.len() implies px[j] == py[j] by {
            if j >= 2 {
                let k = j - 2;
                assert(hash_plan(x[pos[k] as int]) == hash_plan(y[pos[k] as int]));
            }
        }
    }
}

/// The hash plan of an array: its kind and length, then the plans of all
/// its items in order when it has at most a thousand, else of the five
/// items at `0`, `n/4`, `n/2`, `3n/4` and `n-1`.
pub proof fn law_hash_plan_of_arrays(items: Seq<JsonView>)
    ensures
        items.len() <= 1000 ==> hash_plan(JsonView::Array(items)).len() == 2 + items.len() && (
        forall|i: int|
            0 <= i < items.len() ==> hash_plan(JsonView::Array(items))[2 + i]
                == HashStepView::Item(hash_plan(#[trigger] items[i]))),
        items.len() > 1000 ==> hash_plan(JsonView::Array(items)) == seq![
            HashStepView::Text("array"@),
            HashStepView::Count(items.len()),
            HashStepView::Item(hash_plan(items[0])),
            HashStepView::Item(hash_plan(items[(items.len() / 4) as int])),
            HashStepView::Item(hash_plan(items[(items.len() / 2) as int])),
            HashStepView::Item(hash_plan(items[(3 * items.len() / 4) as int])),
            HashStepView::Item(hash_plan(items[items.len() - 1])),
        ],
{
    let n = items.len();
    let p = hash_plan(JsonView::Array(items));
    if n <= 1000 {
        assert forall|i: int| 0 <= i < n implies p[2 + i] == HashStepView::Item(
            hash_plan(#[trigger] items[i]),
        ) by {
            assert(array_sample(n)[i] == i);
        }
    } else {
        assert(3 * n / 4 < n);
        assert(p =~= seq![
            HashStepView::Text("array"@),
            HashStepView::Count(n),
            HashStepView::Item(hash_plan(items[0])),
            HashStepView::Item(hash_plan(items[(n / 4) as int])),
            HashStepView::Item(hash_plan(items[(n / 2) as int])),
            HashStepView::Item(hash_plan(items[(3 * n / 4) as int])),
            HashStepView::Item(hash_plan(items[n - 1])),
        ]);
    }
}

/// Two sorted entry lists of the same length, each holding every key of the
/// other, hold their keys at the same positions.
proof fn lemma_sorted_keys_align(x: Seq<(Seq<char>, JsonView)>, y: Seq<(Seq<char>, JsonView)>)
    requires
        keys_sorted(x),
        keys_sorted(y),
        x.len() == y.len(),
        forall|i: int| 0 <= i < x.len() ==> obj_get(y, (#[trigger] x[i]).0) is Some,
        forall|j: int| 0 <= j < y.len() ==> obj_get(x, (#[trigger] y[j]).0) is Some,
    ensures
        forall|i: int| 0 <= i < x.len() ==> (#[trigger] x[i]).0 == y[i].0,
    decreases x.len(),
{
    if x.len() > 0 {
        let k0 = x[0].0;
        lemma_obj_get_some(y, k0);
        let j = choose|j: int| 0 <= j < y.len() && (#[trigger] y[j]).0 == k0 && y[j].1 == obj_get(
            y,
            k0,
        )->0;
        lemma_obj_get_some(x, y[0].0);
        let i = choose|i: int| 0 <= i < x.len() && (#[trigger] x[i]).0 == y[0].0 && x[i].1
            == obj_get(x, y[0].0)->0;
        if j > 0 {
            assert(text_lt(y[0].0, y[j].0));
            if i > 0 {
                assert(text_lt(x[0].0, x[i].0));
                lemma_text_lt_asymmetric(x[0].0, x[i].0);
            } else {
                lemma_text_lt_irreflexive(k0);
            }
        }
        assert(y[0].0 == k0);
        let x1 = x.drop_first();
        let y1 = y.drop_first();
        lemma_keys_sorted_drop_first(x);
        lemma_keys_sorted_drop_first(y);
        assert forall|a: int| 0 <= a < x1.len() implies obj_get(y1, (#[trigger] x1[a]).0) is Some by {
            assert(x1[a] == x[a + 1]);
            assert(text_lt(k0, x[a + 1].0));
            lemma_text_lt_irreflexive(k0);
            assert(obj_get(y, x[a + 1].0) is Some);
        }
        assert forall|b: int| 0 <= b < y1.len() implies obj_get(x1, (#[trigger] y1[b]).0) is Some by {
            assert(y1[b] == y[b + 1]);
            assert(text_lt(k0, y[b + 1].0));
            lemma_text_lt_irreflexive(k0);
            assert(obj_get(x, y[b + 1].0) is Some);
        }
        lemma_sorted_keys_align(x1, y1);
        assert forall|a: int| 0 <= a < x.len() implies (#[trigger] x[a]).0 == y[a].0 by {
            if a > 0 {
                assert(x[a] == x1[a - 1]);
                assert(y[a] == y1[a - 1]);
            }
        }
    }
}

/// The keys of sorted entries are distinct.
proof fn lemma_sorted_keys_distinct(e: Seq<(Seq<char>, JsonView)>)
    requires
        keys_sorted(e),
    ensures
        obj_keys(e).no_duplicates(),
{
    let ks = obj_keys(e);
    assert forall|i: int, j: int|
        0 <= i < ks.len() && 0 <= j < ks.len() && i != j implies ks[i] != ks[j] by {
        if i < j {
            assert(text_lt(e[i].0, e[j].0));
            lemma_text_lt_irreflexive(e[i].0);
        } else {
            assert(text_lt(e[j].0, e[i].0));
            lemma_text_lt_irreflexive(e[j].0);
        }
    }
}

/// Merging an object into an object keeps every key of either.
pub proof fn law_merge_keeps_keys(a: JsonView, b: JsonView, k: Seq<char>)
    requires
        a.is_object(),
        b.is_object(),
        a.get_key(k) is Some || b.get_key(k) is Some,
    ensures
        merge_deep(a, b).get_key(k) is Some,
{
    lemma_merge_entries_keys(a.entries(), b.entries(), k);
}

proof fn lemma_merge_entries_keys(
    ea: Seq<(Seq<char>, JsonView)>,
    eb: Seq<(Seq<char>, JsonView)>,
    k: Seq<char>,
)
    requires
        obj_get(ea, k) is Some || obj_get(eb, k) is Some,
    ensures
        obj_get(merge_entries(ea, eb), k) is Some,
    decreases eb.len(),
{
    if eb.len() > 0 {
        let k0 = eb[0].0;
        let ov = eb[0].1;
        let next = match obj_get(ea, k0) {
            Some(sv) => obj_set(ea, k0, merge_deep(sv, ov)),
            None => obj_set(ea, k0, ov),
        };
        let nv = match obj_get(ea, k0) {
            Some(sv) => merge_deep(sv, ov),
            None => ov,
        };
        lemma_obj_set_get(ea, k0, nv);
        if k != k0 {
            lemma_obj_set_get_other(ea, k0, nv, k);
            assert(obj_get(eb, k) == obj_get(eb.skip(1), k)) by {
                assert(eb.skip(1) =~= eb.drop_first());
            }
        }
        lemma_merge_entries_keys(next, eb.skip(1), k);
    }
}

/// Merging an object into an object reads, key by key, as follows: a key of
/// the merged-in object holds the deep merge of the old value with the new
/// one, or the new value where there was none; any other key reads as before.
pub proof fn law_merge_reads_per_key(a: JsonView, b: JsonView, k: Seq<char>)
    requires
        a.is_object(),
        b.is_object(),
        b.wf(),
    ensures
        merge_deep(a, b).get_key(k) == match b.get_key(k) {
            Some(bv) => match a.get_key(k) {
                Some(av) => Some(merge_deep(av, bv)),
                None => Some(bv),
            },
            None => a.get_key(k),
        },
{
    lemma_merge_entries_get(a.entries(), b.entries(), k);
}

proof fn lemma_merge_entries_get(
    ea: Seq<(Seq<char>, JsonView)>,
    eb: Seq<(Seq<char>, JsonView)>,
    k: Seq<char>,
)
    requires
        keys_sorted(eb),
    ensures
        obj_get(merge_entries(ea, eb), k) == match obj_get(eb, k) {
            Some(bv) => match obj_get(ea, k) {
                Some(av) => Some(merge_deep(av, bv)),
                None => Some(bv),
            },
            None => obj_get(ea, k),
        },
    decreases eb.len(),
{
    if eb.len() > 0 {
        let k0 = eb[0].0;
        let ov = eb[0].1;
        let nv = match obj_get(ea, k0) {
            Some(sv) => merge_deep(sv, ov),
            None => ov,
        };
        let next = obj_set(ea, k0, nv);
        let rest = eb.skip(1);
        assert(rest =~= eb.drop_first());
        lemma_keys_sorted_drop_first(eb);
        lemma_merge_entries_get(next, rest, k);
        lemma_obj_set_get(ea, k0, nv);
        if k == k0 {
            assert forall|j: int| 0 <= j < rest.len() implies (#[trigger] rest[j]).0 != k by {
                assert(rest[j] == eb[j + 1]);
                assert(text_lt(eb[0].0, eb[j + 1].0));
                lemma_text_lt_irreflexive(k);
            }
            lemma_obj_get_none(rest, k);
        } else {
            lemma_obj_set_get_other(ea, k0, nv, k);
            assert(obj_get(eb, k) == obj_get(eb.drop_first(), k));
        }
    }
}

/// The merge of the shared dynamic value reads, key by key, as follows: a
/// key of the merged-in object holds the merge of the two values where both
/// are objects, else the new value; any other key reads as before.
pub proof fn law_merge_objects_reads_per_key(a: JsonView, b: JsonView, k: Seq<char>)
    requires
        a.is_object(),
        b.is_object(),
        b.wf(),
    ensures
        merge_objects(a, b).get_key(k) == match b.get_key(k) {
            Some(bv) => match a.get_key(k) {
                Some(av) => if av.is_object() && bv.is_object() {
                    Some(merge_objects(av, bv))
                } else {
                    Some(bv)
                },
                None => Some(bv),
            },
            None => a.get_key(k),
        },
{
    lemma_merge_object_entries_get(a.entries(), b.entries(), k);
}

proof fn lemma_merge_object_entries_get(
    ea: Seq<(Seq<char>, JsonView)>,
    eb: Seq<(Seq<char>, JsonView)>,
    k: Seq<char>,
)
    requires
        keys_sorted(eb),
    ensures
        obj_get(merge_object_entries(ea, eb), k) == match obj_get(eb, k) {
            Some(bv) => match obj_get(ea, k) {
                Some(av) => if av.is_object() && bv.is_object() {
                    Some(merge_objects(av, bv))
                } else {
                    Some(bv)
                },
                None => Some(bv),
            },
            None => obj_get(ea, k),
        },
    decreases eb.len(),
{
    if eb.len() > 0 {
        let k0 = eb[0].0;
        let ov = eb[0].1;
        let nv = match obj_get(ea, k0) {
            Some(sv) => if sv.is_object() && ov.is_object() {
                merge_objects(sv, ov)
            } else {
                ov
            },
            None => ov,
        };
        let next = obj_set(ea, k0, nv);
        let rest = eb.skip(1);
        assert(rest =~= eb.drop_first());
        lemma_keys_sorted_drop_first(eb);
        lemma_merge_object_entries_get(next, rest, k);
        lemma_obj_set_get(ea, k0, nv);
        if k == k0 {
            assert forall|j: int| 0 <= j < rest.len() implies (#[trigger] rest[j]).0 != k by {
                assert(rest[j] == eb[j + 1]);
                assert(text_lt(eb[0].0, eb[j + 1].0));
                lemma_text_lt_irreflexive(k);
            }
            lemma_obj_get_none(rest, k);
        } else {
            lemma_obj_set_get_other(ea, k0, nv, k);
            assert(obj_get(eb, k) == obj_get(eb.drop_first(), k));
        }
    }
}

/// Merging an array into an array gives an array of the first array's items
/// followed by the second's, each in its order.
pub proof fn law_merge_arrays_append(x: Seq<JsonView>, y: Seq<JsonView>)
    ensures
        merge_deep(JsonView::Array(x), JsonView::Array(y)).is_array(),
        merge_deep(JsonView::Array(x), JsonView::Array(y)).items().len() == x.len() + y.len(),
        forall|i: int|
            0 <= i < x.len() ==> merge_deep(JsonView::Array(x), JsonView::Array(y)).items()[i]
                == #[trigger] x[i],
        forall|j: int|
            0 <= j < y.len() ==> merge_deep(JsonView::Array(x), JsonView::Array(y)).items()[x.len()
                + j] == #[trigger] y[j],
{
}

/// The six type names of a simple schema: a value matches one exactly when
/// it is of that kind.
pub proof fn law_schema_type_names(v: JsonView)
    ensures
        matches_schema(v, JsonView::Str("string"@)) <==> v is Str,
        matches_schema(v, JsonView::Str("number"@)) <==> v is Number,
        matches_schema(v, JsonView::Str("boolean"@)) <==> v is Bool,
        matches_schema(v, JsonView::Str("object"@)) <==> v is Object,
        matches_schema(v, JsonView::Str("array"@)) <==> v is Array,
        matches_schema(v, JsonView::Str("null"@)) <==> v is Null,
{
    reveal_strlit("string");
    reveal_strlit("number");
    reveal_strlit("boolean");
    reveal_strlit("object");
    reveal_strlit("array");
    reveal_strlit("null");
    assert("string"@[0] == 's' && "number"@[0] == 'n' && "boolean"@[0] == 'b');
    assert("object"@[0] == 'o' && "array"@[0] == 'a' && "null"@[0] == 'n');
    assert("number"@.len() == 6 && "null"@.len() == 4);
}

/// A value matches an object schema exactly when it is an object and, for
/// every key the schema has, the value has that key with a value matching
/// the schema under it.
pub proof fn law_schema_every_key(v: JsonView, schema: JsonView)
    requires
        schema.is_object(),
        schema.wf(),
    ensures
        matches_schema(v, schema) <==> (v.is_object() && forall|k: Seq<char>|
            #[trigger] schema.get_key(k) is Some ==> match v.get_key(k) {
                Some(x) => matches_schema(x, schema.get_key(k)->0),
                None => false,
            }),
{
    let e = schema.entries();
    if matches_schema(v, schema) {
        assert forall|k: Seq<char>| #[trigger] schema.get_key(k) is Some implies match v.get_key(k) {
            Some(x) => matches_schema(x, schema.get_key(k)->0),
            None => false,
        } by {
            lemma_obj_get_some(e, k);
            let i = choose|i: int| 0 <= i < e.len() && (#[trigger] e[i]).0 == k && e[i].1 == obj_get(
                e,
                k,
            )->0;
            assert(match v.get_key(e[i].0) {
                Some(x) => matches_schema(x, e[i].1),
                None => false,
            });
        }
    }
    if v.is_object() && forall|k: Seq<char>|
        #[trigger] schema.get_key(k) is Some ==> match v.get_key(k) {
            Some(x) => matches_schema(x, schema.get_key(k)->0),
            None => false,
        } {
        assert forall|i: int| 0 <= i < e.len() implies match v.get_key((#[trigger] e[i]).0) {
            Some(x) => matches_schema(x, e[i].1),
            None => false,
        } by {
            lemma_obj_get_sorted(e, i);
            assert(schema.get_key(e[i].0) == Some(e[i].1));
        }
    }
}

/// Merging the empty object changes nothing, and a value that is neither an
/// object nor an array is replaced by what is merged in.
pub proof fn law_merge_empty_and_replace(a: JsonView, b: JsonView)
    ensures
        a.is_object() ==> merge_deep(a, empty_object()) == a,
        !(a.is_object() && b.is_object()) && !(a.is_array() && b.is_array()) ==> merge_deep(a, b)
            == b,
{
}

/// A record written under an id reads back from the same model, and every
/// other record of every model reads as before.
pub proof fn law_find_after_put(
    m: Seq<(Seq<char>, Seq<(Seq<char>, JsonView)>)>,
    name: Seq<char>,
    id: Seq<char>,
    v: JsonView,
    other_name: Seq<char>,
    other_id: Seq<char>,
)
    ensures
        find_record(put_record(m, name, id, v), name, id) == Some(v),
        (other_name != name || other_id != id) ==> find_record(
            put_record(m, name, id, v),
            other_name,
            other_id,
        ) == find_record(m, other_name, other_id),
{
    lemma_assoc_put_get(m, name, assoc_put(model_records(m, name), id, v), name);
    lemma_assoc_put_get(model_records(m, name), id, v, id);
    if other_name != name {
        lemma_assoc_put_get(m, name, assoc_put(model_records(m, name), id, v), other_name);
    } else {
        lemma_assoc_put_get(model_records(m, name), id, v, other_id);
    }
}

/// After removing a record from a model whose ids are distinct, it is gone,
/// and every other record reads as before.
pub proof fn law_find_after_remove(
    m: Seq<(Seq<char>, Seq<(Seq<char>, JsonView)>)>,
    name: Seq<char>,
    id: Seq<char>,
    other_name: Seq<char>,
    other_id: Seq<char>,
)
    requires
        keys_distinct(model_records(m, name)),
    ensures
        find_record(remove_record(m, name, id), name, id) is None,
        (other_name != name || other_id != id) ==> find_record(
            remove_record(m, name, id),
            other_name,
            other_id,
        ) == find_record(m, other_name, other_id),
{
    let recs = model_records(m, name);
    lemma_assoc_put_get(m, name, assoc_remove(recs, id), name);
    lemma_assoc_remove_get(recs, id, id);
    if other_name != name {
        lemma_assoc_put_get(m, name, assoc_remove(recs, id), other_name);
    } else {
        lemma_assoc_remove_get(recs, id, other_id);
    }
}

/// Removing a record that was just stored under a new id gives back the
/// records of its model as they were.
pub proof fn law_remove_undoes_insert(
    m: Seq<(Seq<char>, Seq<(Seq<char>, JsonView)>)>,
    name: Seq<char>,
    id: Seq<char>,
    v: JsonView,
)
    requires
        find_record(m, name, id) is None,
    ensures
        model_records(remove_record(put_record(m, name, id, v), name, id), name) == model_records(
            m,
            name,
        ),
{
    let recs = model_records(m, name);
    let after = put_record(m, name, id, v);
    lemma_assoc_put_get(m, name, assoc_put(recs, id, v), name);
    assert(model_records(after, name) == assoc_put(recs, id, v));
    lemma_assoc_none_absent(recs, id);
    crate::assoc::lemma_assoc_absent(recs, id, v);
    lemma_assoc_remove_last(recs, id, v);
    lemma_assoc_put_get(after, name, assoc_remove(assoc_put(recs, id, v), id), name);
}

proof fn lemma_assoc_none_absent<V>(s: Seq<(Seq<char>, V)>, k: Seq<char>)
    requires
        assoc_get(s, k) is None,
    ensures
        forall|j: int| 0 <= j < s.len() ==> (#[trigger] s[j]).0 != k,
    decreases s.len(),
{
    if s.len() > 0 {
        lemma_assoc_none_absent(s.drop_first(), k);
        assert forall|j: int| 0 <= j < s.len() implies (#[trigger] s[j]).0 != k by {
            if j > 0 {
                assert(s[j] == s.drop_first()[j - 1]);
            }
        }
    }
}

proof fn lemma_assoc_remove_last<V>(s: Seq<(Seq<char>, V)>, k: Seq<char>, v: V)
    requires
        forall|j: int| 0 <= j < s.len() ==> (#[trigger] s[j]).0 != k,
    ensures
        assoc_remove(s.push((k, v)), k) == s,
    decreases s.len(),
{
    let t = s.push((k, v));
    if s.len() == 0 {
        assert(t[0].0 == k);
        assert(t.drop_first() =~= s);
    } else {
        assert forall|j: int| 0 <= j < s.drop_first().len() implies (
        #[trigger] s.drop_first()[j]).0 != k by {
            assert(s.drop_first()[j] == s[j + 1]);
        }
        lemma_assoc_remove_last(s.drop_first(), k, v);
        assert(t[0] == s[0]);
        assert(t.drop_first() =~= s.drop_first().push((k, v)));
        assert(seq![s[0]] + s.drop_first() =~= s);
    }
}

/// Removing a key that was just written into an object where it was absent
/// gives back the object as it was.
pub proof fn law_remove_key_undoes_set_key(v: JsonView, k: Seq<char>, x: JsonView)
    requires
        v.wf(),
        v.is_object(),
        v.get_key(k) is None,
    ensures
        v.set_key(k, x).remove_key(k) == v,
{
    lemma_obj_remove_set(v.entries(), k, x);
}

proof fn lemma_obj_remove_set(e: Seq<(Seq<char>, JsonView)>, k: Seq<char>, x: JsonView)
    requires
        obj_get(e, k) is None,
    ensures
        obj_remove(obj_set(e, k, x), k) == e,
    decreases e.len(),
{
    let t = obj_set(e, k, x);
    if e.len() == 0 {
        assert(t[0].0 == k);
        assert(t.drop_first() =~= e);
    } else if text_lt(k, e[0].0) {
        assert(t[0].0 == k);
        assert(t.drop_first() =~= e);
    } else {
        lemma_obj_remove_set(e.drop_first(), k, x);
        assert(t[0] == e[0]);
        assert(t.drop_first() =~= obj_set(e.drop_first(), k, x));
        assert(seq![e[0]] + e.drop_first() =~= e);
    }
}

/// Removing a record that is there leaves its model with one record fewer;
/// storing under a new id adds one, and under an id in use adds none.
pub proof fn law_counts_after_put_and_remove(
    m: Seq<(Seq<char>, Seq<(Seq<char>, JsonView)>)>,
    name: Seq<char>,
    id: Seq<char>,
    v: JsonView,
)
    requires
        keys_distinct(model_records(m, name)),
    ensures
        find_record(m, name, id) is Some ==> model_records(remove_record(m, name, id), name).len()
            == model_records(m, name).len() - 1,
        find_record(m, name, id) is Some ==> model_records(put_record(m, name, id, v), name).len()
            == model_records(m, name).len(),
        find_record(m, name, id) is None ==> model_records(put_record(m, name, id, v), name).len()
            == model_records(m, name).len() + 1,
{
    let recs = model_records(m, name);
    lemma_assoc_put_get(m, name, assoc_put(recs, id, v), name);
    lemma_assoc_put_get(m, name, assoc_remove(recs, id), name);
    if assoc_get(recs, id) is Some {
        let i = lemma_assoc_first(recs, id);
        crate::assoc::lemma_assoc_at(recs, id, v, i);
    } else {
        lemma_assoc_none_absent(recs, id);
        crate::assoc::lemma_assoc_absent(recs, id, v);
    }
}

proof fn lemma_assoc_first<V>(s: Seq<(Seq<char>, V)>, k: Seq<char>) -> (i: int)
    requires
        assoc_get(s, k) is Some,
    ensures
        0 <= i < s.len(),
        s[i].0 == k,
        forall|j: int| 0 <= j < i ==> (#[trigger] s[j]).0 != k,
    decreases s.len(),
{
    if s[0].0 == k {
        0
    } else {
        let t = lemma_assoc_first(s.drop_first(), k);
        assert forall|j: int| 0 <= j < t + 1 implies (#[trigger] s[j]).0 != k by {
            if j > 0 {
                assert(s[j] == s.drop_first()[j - 1]);
            }
        }
        t + 1
    }
}

/// The records with something at a path: none of no records, and adding a
/// record at the end adds it to the result exactly when the whole path leads
/// to something in it.
pub proof fn law_with_path_step(s: Seq<JsonView>, v: JsonView, segs: Seq<Seq<char>>)
    ensures
        with_path(Seq::empty(), segs) == Seq::<JsonView>::empty(),
        with_path(s.push(v), segs) == if navigate(v, segs) is Some {
            with_path(s, segs).push(v)
        } else {
            with_path(s, segs)
        },
        forall|j: int|
            0 <= j < with_path(s, segs).len() ==> navigate(#[trigger] with_path(s, segs)[j], segs)
                is Some,
        forall|i: int|
            0 <= i < s.len() && navigate(s[i], segs) is Some ==> with_path(s, segs).contains(
                #[trigger] s[i],
            ),
{
    reveal(Seq::filter);
    assert(s.push(v).drop_last() =~= s);
    let pred = |w: JsonView| navigate(w, segs) is Some;
    broadcast use vstd::seq_lib::group_filter_ensures;
    assert forall|i: int| 0 <= i < s.len() && navigate(s[i], segs) is Some implies with_path(
        s,
        segs,
    ).contains(#[trigger] s[i]) by {
        s.lemma_filter_contains(pred, i);
    }
}

/// The records whose value at a path equals a given value: none of no
/// records, and adding a record at the end adds it to the result exactly
/// when the path leads to a value equal to the given one; every record that
/// so matches is in the result, and only such records.
pub proof fn law_with_value_at_step(
    s: Seq<JsonView>,
    v: JsonView,
    segs: Seq<Seq<char>>,
    expected: JsonView,
)
    ensures
        with_value_at(Seq::empty(), segs, expected) == Seq::<JsonView>::empty(),
        with_value_at(s.push(v), segs, expected) == if (navigate(v, segs) matches Some(y)
            && json_equiv(y, expected)) {
            with_value_at(s, segs, expected).push(v)
        } else {
            with_value_at(s, segs, expected)
        },
        forall|j: int|
            0 <= j < with_value_at(s, segs, expected).len() ==> (navigate(
                #[trigger] with_value_at(s, segs, expected)[j],
                segs,
            ) matches Some(y) && json_equiv(y, expected)),
        forall|i: int|
            0 <= i < s.len() && (navigate(s[i], segs) matches Some(y) && json_equiv(y, expected))
                ==> with_value_at(s, segs, expected).contains(#[trigger] s[i]),
{
    reveal(Seq::filter);
    assert(s.push(v).drop_last() =~= s);
    let pred = |w: JsonView|
        match navigate(w, segs) {
            Some(y) => json_equiv(y, expected),
            None => false,
        };
    broadcast use vstd::seq_lib::group_filter_ensures;
    assert forall|i: int|
        0 <= i < s.len() && (navigate(s[i], segs) matches Some(y) && json_equiv(
            y,
            expected,
        )) implies with_value_at(s, segs, expected).contains(#[trigger] s[i]) by {
        s.lemma_filter_contains(pred, i);
    }
}

/// The records whose value at a path is the very value given: none of no
/// records, and adding a record at the end adds it to the result exactly
/// when the path leads to that value in it.
pub proof fn law_with_same_at_step(
    s: Seq<JsonView>,
    v: JsonView,
    segs: Seq<Seq<char>>,
    expected: JsonView,
)
    ensures
        with_same_at(Seq::empty(), segs, expected) == Seq::<JsonView>::empty(),
        with_same_at(s.push(v), segs, expected) == if navigate(v, segs) == Some(expected) {
            with_same_at(s, segs, expected).push(v)
        } else {
            with_same_at(s, segs, expected)
        },
        forall|j: int|
            0 <= j < with_same_at(s, segs, expected).len() ==> navigate(
                #[trigger] with_same_at(s, segs, expected)[j],
                segs,
            ) == Some(expected),
{
    reveal(Seq::filter);
    assert(s.push(v).drop_last() =~= s);
    broadcast use vstd::seq_lib::group_filter_ensures;
}

proof fn lemma_assoc_put_get<V>(s: Seq<(Seq<char>, V)>, k: Seq<char>, v: V, q: Seq<char>)
    ensures
        assoc_get(assoc_put(s, k, v), q) == if q == k {
            Some(v)
        } else {
            assoc_get(s, q)
        },
    decreases s.len(),
{
    let r = assoc_put(s, k, v);
    if s.len() == 0 {
        assert(r == seq![(k, v)]);
        assert(r.drop_first() =~= Seq::<(Seq<char>, V)>::empty());
        assert(assoc_get(r, q) == if r[0].0 == q {
            Some(r[0].1)
        } else {
            assoc_get(r.drop_first(), q)
        });
    } else if s[0].0 == k {
        assert(r == seq![(k, v)] + s.drop_first());
        assert(r[0] == (k, v));
        assert(r.drop_first() =~= s.drop_first());
        assert(assoc_get(r, q) == if r[0].0 == q {
            Some(r[0].1)
        } else {
            assoc_get(r.drop_first(), q)
        });
    } else {
        lemma_assoc_put_get(s.drop_first(), k, v, q);
        assert(r == seq![s[0]] + assoc_put(s.drop_first(), k, v));
        assert(r[0] == s[0]);
        assert(r.drop_first() =~= assoc_put(s.drop_first(), k, v));
        assert(assoc_get(r, q) == if r[0].0 == q {
            Some(r[0].1)
        } else {
            assoc_get(r.drop_first(), q)
        });
    }
}

proof fn lemma_assoc_remove_get<V>(s: Seq<(Seq<char>, V)>, k: Seq<char>, q: Seq<char>)
    requires
        keys_distinct(s),
    ensures
        assoc_get(assoc_remove(s, k), q) == if q == k {
            None
        } else {
            assoc_get(s, q)
        },
    decreases s.len(),
{
    let r = assoc_remove(s, k);
    if s.len() > 0 {
        assert(keys_distinct(s.drop_first())) by {
            assert forall|a: int, b: int| 0 <= a < b < s.drop_first().len() implies (
            #[trigger] s.drop_first()[a]).0 != (#[trigger] s.drop_first()[b]).0 by {
                assert(s.drop_first()[a] == s[a + 1] && s.drop_first()[b] == s[b + 1]);
            }
        }
        if s[0].0 == k {
            assert(r == s.drop_first());
            if q == k {
                assert forall|j: int| 0 <= j < r.len() implies (#[trigger] r[j]).0 != k by {
                    assert(r[j] == s[j + 1]);
                }
                crate::assoc::lemma_assoc_absent(r, k, arbitrary::<V>());
            }
        } else {
            lemma_assoc_remove_get(s.drop_first(), k, q);
            assert(r[0] == s[0]);
            assert(r.drop_first() =~= assoc_remove(s.drop_first(), k));
        }
    }
}

} // verus!

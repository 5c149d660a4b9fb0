//! What holds of a dictionary that was built from pairs.
use vstd::prelude::*;

use crate::frameworks::foundation::ns_dictionary::{
    bucket_index, built, keys_match, law_counts, lemma_bucket_index, lemma_bucket_index_is,
    lemma_first_bucket, lemma_inserted_wf, lemma_pair_index, lemma_pair_index_is, pair_index,
    DictView, Pair,
};
use crate::objc::{id, nil, ObjC};

verus! {

/// Among these keys equality is one: each equals itself (a key is found by its
/// identity), and it is symmetric, transitive and goes with the hash values.
pub open spec fn keys_lawful(objc: ObjC, keys: Set<id>) -> bool {
    &&& forall|a: id, b: id|
        keys.contains(a) && keys.contains(b) && #[trigger] keys_match(objc, a, b) ==> keys_match(
            objc,
            b,
            a,
        ) && objc.hash_of(a) == objc.hash_of(b)
    &&& forall|a: id, b: id, c: id|
        keys.contains(a) && keys.contains(b) && keys.contains(c) && #[trigger] keys_match(
            objc,
            a,
            b,
        ) && #[trigger] keys_match(objc, b, c) ==> keys_match(objc, a, c)
}

/// Each key of these pairs, once copied, is one of `keys`.
pub open spec fn pairs_within(objc: ObjC, pairs: Seq<Pair>, keys: Set<id>) -> bool {
    forall|i: int|
        0 <= i < pairs.len() ==> keys.contains(objc.copy_of((#[trigger] pairs[i]).0))
}

/// Some pair has a key that, once copied, equals `key`.
pub open spec fn key_given(objc: ObjC, pairs: Seq<Pair>, key: id) -> bool {
    exists|i: int|
        0 <= i < pairs.len() && keys_match(objc, objc.copy_of((#[trigger] pairs[i]).0), key)
}

/// How many of the keys are equal to none before them.
pub open spec fn distinct_keys(objc: ObjC, pairs: Seq<Pair>) -> int
    decreases pairs.len(),
{
    if pairs.len() == 0 {
        0
    } else {
        let front = pairs.drop_last();
        distinct_keys(objc, front) + if key_given(objc, front, objc.copy_of(pairs.last().0)) {
            0int
        } else {
            1
        }
    }
}

spec fn bucket_within(pairs: Seq<Pair>, keys: Set<id>) -> bool {
    forall|i: int| 0 <= i < pairs.len() ==> keys.contains((#[trigger] pairs[i]).0)
}

/// Each key that a dictionary holds is one of `keys`.
spec fn dict_within(d: DictView, keys: Set<id>) -> bool {
    forall|b: int| 0 <= b < d.buckets.len() ==> bucket_within((#[trigger] d.buckets[b]).1, keys)
}

/// What becomes of the place of `other` in the bucket that `key` is inserted
/// in.
proof fn lemma_bucket_step(
    objc: ObjC,
    pairs: Seq<Pair>,
    after: Seq<Pair>,
    key: id,
    value: id,
    other: id,
    keys: Set<id>,
)
    requires
        keys_lawful(objc, keys),
        bucket_within(pairs, keys),
        keys.contains(key),
        keys.contains(other),
        after == match pair_index(objc, pairs, key, 0) {
            Some(i) => pairs.update(i, (pairs[i].0, value)),
            None => pairs.push((key, value)),
        },
    ensures
        bucket_within(after, keys),
        if keys_match(objc, key, other) {
            pair_index(objc, after, other, 0) matches Some(k) && 0 <= k < after.len()
                && after[k].1 == value
        } else {
            match pair_index(objc, pairs, other, 0) {
                Some(k) => {
                    &&& pair_index(objc, after, other, 0) == Some(k)
                    &&& 0 <= k < pairs.len()
                    &&& after[k].1 == pairs[k].1
                },
                None => pair_index(objc, after, other, 0) is None,
            }
        },
{
    lemma_pair_index(objc, pairs, key, 0);
    lemma_pair_index(objc, pairs, other, 0);
    assert(keys_match(objc, key, key));
    assert forall|j: int| 0 <= j < after.len() implies keys.contains((#[trigger] after[j]).0) by {
        if j < pairs.len() {
            assert(after[j].0 == pairs[j].0);
        }
    }
    if keys_match(objc, key, other) {
        assert(keys_match(objc, other, key));
        let k = match pair_index(objc, pairs, key, 0) {
            Some(i) => i,
            None => pairs.len() as int,
        };
        assert forall|j: int| 0 <= j < k implies !keys_match(
            objc,
            (#[trigger] after[j]).0,
            other,
        ) by {
            assert(after[j].0 == pairs[j].0);
            assert(keys.contains(pairs[j].0));
            assert(!keys_match(objc, pairs[j].0, key));
        }
        if k < pairs.len() {
            assert(keys.contains(pairs[k].0));
            assert(keys_match(objc, pairs[k].0, key));
        }
        assert(keys_match(objc, after[k].0, other));
        lemma_pair_index_is(objc, after, other, 0, k);
    } else {
        let k = match pair_index(objc, pairs, other, 0) {
            Some(k) => k,
            None => after.len() as int,
        };
        assert forall|j: int| 0 <= j < k implies !keys_match(
            objc,
            (#[trigger] after[j]).0,
            other,
        ) by {
            if j < pairs.len() {
                assert(after[j].0 == pairs[j].0);
            }
        }
        if k < pairs.len() {
            assert(after[k].0 == pairs[k].0);
            if let Some(i) = pair_index(objc, pairs, key, 0) {
                assert(keys.contains(pairs[i].0));
                assert(keys_match(objc, pairs[i].0, key));
                assert(keys_match(objc, key, pairs[i].0));
                assert(i != k);
            }
        }
        lemma_pair_index_is(objc, after, other, 0, k);
    }
}

/// Inserting a key sets the value of the keys that equal it, and of no other.
proof fn lemma_insert_step(
    d: DictView,
    objc: ObjC,
    key: id,
    value: id,
    other: id,
    keys: Set<id>,
)
    requires
        d.wf(),
        keys_lawful(objc, keys),
        dict_within(d, keys),
        keys.contains(key),
        keys.contains(other),
    ensures
        dict_within(d.inserted(objc, key, value), keys),
        d.inserted(objc, key, value).place(objc, other) is Some <==> (d.place(objc, other) is Some
            || keys_match(objc, key, other)),
        d.inserted(objc, key, value).value(objc, other) == if keys_match(objc, key, other) {
            value
        } else {
            d.value(objc, other)
        },
{
    let e = d.inserted(objc, key, value);
    let h = objc.hash_of(key);
    let g = objc.hash_of(other);
    lemma_bucket_index(d.buckets, h, 0);
    lemma_bucket_index(d.buckets, g, 0);
    match bucket_index(d.buckets, h, 0) {
        None => {
            let n = d.buckets.len() as int;
            assert(e.buckets[n] == (h, seq![(key, value)]));
            assert(bucket_within(seq![(key, value)], keys));
            assert(dict_within(e, keys)) by {
                assert forall|b: int| 0 <= b < e.buckets.len() implies bucket_within(
                    (#[trigger] e.buckets[b]).1,
                    keys,
                ) by {
                    if b < n {
                        assert(bucket_within(d.buckets[b].1, keys));
                    }
                }
            }
            if g == h {
                lemma_bucket_index_is(e.buckets, h, 0, n);
                lemma_pair_index_is(
                    objc,
                    seq![(key, value)],
                    other,
                    0,
                    if keys_match(objc, key, other) {
                        0
                    } else {
                        1
                    },
                );
            }
        },
        Some(b) => {
            assert(bucket_within(d.buckets[b].1, keys));
            lemma_bucket_step(objc, d.buckets[b].1, e.buckets[b].1, key, value, other, keys);
            lemma_first_bucket(d, h, b);
            assert(dict_within(e, keys)) by {
                assert forall|c: int| 0 <= c < e.buckets.len() implies bucket_within(
                    (#[trigger] e.buckets[c]).1,
                    keys,
                ) by {
                    assert(bucket_within(d.buckets[c].1, keys));
                }
            }
            if g == h {
                lemma_bucket_index_is(d.buckets, h, 0, b);
                lemma_bucket_index_is(e.buckets, h, 0, b);
                lemma_pair_index(objc, d.buckets[b].1, other, 0);
                if keys_match(objc, key, other) {
                    assert(e.place(objc, other) is Some);
                }
            }
        },
    }
    if g != h {
        assert(!keys_match(objc, key, other));
        let k = match bucket_index(d.buckets, g, 0) {
            Some(b) => b,
            None => e.buckets.len() as int,
        };
        assert forall|j: int| 0 <= j < k implies (#[trigger] e.buckets[j]).0 != g by {
            if j < d.buckets.len() {
                if k < d.buckets.len() {
                    lemma_first_bucket(d, g, k);
                }
                assert(d.buckets[j].0 != g);
            }
        }
        lemma_bucket_index_is(e.buckets, g, 0, k);
        if k < d.buckets.len() {
            assert(e.buckets[k] == d.buckets[k]);
        }
    }
}

/// What was built is in order, holds only keys that were given, and finds those
/// that equal one.
proof fn lemma_built(objc: ObjC, pairs: Seq<Pair>, keys: Set<id>, key: id)
    requires
        keys_lawful(objc, keys),
        pairs_within(objc, pairs, keys),
        keys.contains(key),
    ensures
        built(objc, pairs).dict.wf(),
        dict_within(built(objc, pairs).dict, keys),
        built(objc, pairs).dict.place(objc, key) is Some <==> key_given(objc, pairs, key),
    decreases pairs.len(),
{
    if pairs.len() > 0 {
        let front = pairs.drop_last();
        let n = front.len() as int;
        assert forall|i: int| 0 <= i < n implies keys.contains(
            objc.copy_of((#[trigger] front[i]).0),
        ) by {
            assert(front[i] == pairs[i]);
        }
        lemma_built(objc, front, keys, key);
        let d = built(objc, front).dict;
        let (last, value) = pairs.last();
        assert(keys.contains(objc.copy_of(pairs[n].0)));
        lemma_inserted_wf(d, objc, objc.copy_of(last), value);
        lemma_insert_step(d, objc, objc.copy_of(last), value, key, keys);
        if key_given(objc, front, key) {
            let i = choose|i: int|
                0 <= i < n && keys_match(objc, objc.copy_of((#[trigger] front[i]).0), key);
            assert(pairs[i] == front[i]);
        }
        if key_given(objc, pairs, key) && !keys_match(objc, objc.copy_of(last), key) {
            let i = choose|i: int|
                0 <= i < pairs.len() && keys_match(
                    objc,
                    objc.copy_of((#[trigger] pairs[i]).0),
                    key,
                );
            assert(front[i] == pairs[i]);
        }
        if keys_match(objc, objc.copy_of(last), key) {
            assert(keys_match(objc, objc.copy_of(pairs[n].0), key));
        }
    }
}

/// A dictionary that was built from pairs gives a key the value of the last pair
/// whose key equals it.
pub proof fn law_built_last_wins(
    objc: ObjC,
    pairs: Seq<Pair>,
    keys: Set<id>,
    i: int,
    key: id,
)
    requires
        keys_lawful(objc, keys),
        pairs_within(objc, pairs, keys),
        keys.contains(key),
        0 <= i < pairs.len(),
        keys_match(objc, objc.copy_of(pairs[i].0), key),
        forall|j: int|
            i < j < pairs.len() ==> !keys_match(objc, objc.copy_of((#[trigger] pairs[j]).0), key),
    ensures
        built(objc, pairs).dict.value(objc, key) == pairs[i].1,
    decreases pairs.len(),
{
    let front = pairs.drop_last();
    let n = front.len() as int;
    let (last, value) = pairs.last();
    assert forall|j: int| 0 <= j < n implies keys.contains(
        objc.copy_of((#[trigger] front[j]).0),
    ) by {
        assert(front[j] == pairs[j]);
    }
    assert(keys.contains(objc.copy_of(pairs[n].0)));
    lemma_built(objc, front, keys, key);
    lemma_insert_step(built(objc, front).dict, objc, objc.copy_of(last), value, key, keys);
    if i < n {
        assert(!keys_match(objc, objc.copy_of(pairs[n].0), key));
        assert forall|j: int| i < j < n implies !keys_match(
            objc,
            objc.copy_of((#[trigger] front[j]).0),
            key,
        ) by {
            assert(front[j] == pairs[j]);
        }
        assert(front[i] == pairs[i]);
        law_built_last_wins(objc, front, keys, i, key);
    }
}

/// A key that equals none of those that a dictionary was built from has no value
/// there.
pub proof fn law_built_absent(objc: ObjC, pairs: Seq<Pair>, keys: Set<id>, key: id)
    requires
        keys_lawful(objc, keys),
        pairs_within(objc, pairs, keys),
        keys.contains(key),
        !key_given(objc, pairs, key),
    ensures
        built(objc, pairs).dict.value(objc, key) == nil,
{
    lemma_built(objc, pairs, keys, key);
}

/// A dictionary that was built from pairs counts as many as there are distinct
/// keys.
pub proof fn law_built_count(objc: ObjC, pairs: Seq<Pair>, keys: Set<id>)
    requires
        keys_lawful(objc, keys),
        pairs_within(objc, pairs, keys),
    ensures
        built(objc, pairs).dict.count == distinct_keys(objc, pairs),
    decreases pairs.len(),
{
    if pairs.len() > 0 {
        let front = pairs.drop_last();
        let n = front.len() as int;
        let (last, value) = pairs.last();
        assert forall|j: int| 0 <= j < n implies keys.contains(
            objc.copy_of((#[trigger] front[j]).0),
        ) by {
            assert(front[j] == pairs[j]);
        }
        assert(keys.contains(objc.copy_of(pairs[n].0)));
        law_built_count(objc, front, keys);
        lemma_built(objc, front, keys, objc.copy_of(last));
        law_counts(built(objc, front).dict, objc, objc.copy_of(last), value);
    }
}

} // verus!

//! What a `CFDictionary` answers, what it keeps and which of its functions it
//! calls, pair by pair.
use vstd::prelude::*;

use crate::frameworks::foundation::ns_dictionary::{
    calls, cf_insert_actions, cf_inserted, cf_pair_index, cf_place, cf_remove_actions, cf_removed,
    cf_value, lemma_bucket_index, lemma_bucket_index_is, CFDictionaryKeyCallBacks,
    CFDictionaryValueCallBacks, DictView, Pair,
};
use crate::objc::{id, Action, ObjC};

verus! {

/// The two keys are the same, or, where there is a function for it, it answers
/// that they are.
pub open spec fn taken_for(objc: ObjC, keys: CFDictionaryKeyCallBacks, a: id, b: id) -> bool {
    if keys.equal == 0 {
        a == b
    } else {
        objc.answer(keys.equal, a, b) is Some && objc.answer(keys.equal, a, b) != Some(0u32)
    }
}

/// The hash value of a key: the key itself, or what the function for it answers.
pub open spec fn hashes_to(
    objc: ObjC,
    keys: CFDictionaryKeyCallBacks,
    key: id,
    hash: u32,
) -> bool {
    if keys.hash == 0 {
        hash == key
    } else {
        objc.answer(keys.hash, key, 0) == Some(hash)
    }
}

/// It is known whether the key is taken for those of the pairs.
pub open spec fn answered(
    objc: ObjC,
    keys: CFDictionaryKeyCallBacks,
    pairs: Seq<Pair>,
    key: id,
) -> bool {
    keys.equal != 0 ==> forall|j: int|
        0 <= j < pairs.len() ==> objc.answer(keys.equal, (#[trigger] pairs[j]).0, key) is Some
}

/// The bucket `b` is the first for the hash value, and the pair `i` the first in
/// it whose key is taken for the key; there is no such pair where `i` is behind
/// the last.
pub open spec fn stands_at(
    objc: ObjC,
    keys: CFDictionaryKeyCallBacks,
    d: DictView,
    key: id,
    hash: u32,
    b: int,
    i: int,
) -> bool {
    &&& 0 <= b < d.buckets.len()
    &&& d.buckets[b].0 == hash
    &&& forall|c: int| 0 <= c < b ==> (#[trigger] d.buckets[c]).0 != hash
    &&& 0 <= i <= d.buckets[b].1.len()
    &&& i < d.buckets[b].1.len() ==> taken_for(objc, keys, d.buckets[b].1[i].0, key)
    &&& forall|j: int| 0 <= j < i ==> !taken_for(objc, keys, (#[trigger] d.buckets[b].1[j]).0, key)
}

proof fn lemma_first_pair(
    objc: ObjC,
    keys: CFDictionaryKeyCallBacks,
    pairs: Seq<Pair>,
    key: id,
    from: int,
    i: int,
)
    requires
        0 <= from <= i <= pairs.len(),
        answered(objc, keys, pairs, key),
        i < pairs.len() ==> taken_for(objc, keys, pairs[i].0, key),
        forall|j: int| 0 <= j < i ==> !taken_for(objc, keys, (#[trigger] pairs[j]).0, key),
    ensures
        cf_pair_index(objc, keys, pairs, key, from) == if i < pairs.len() {
            Some(i)
        } else {
            None
        },
    decreases i - from,
{
    if from < i {
        assert(!taken_for(objc, keys, pairs[from].0, key));
        lemma_first_pair(objc, keys, pairs, key, from + 1, i);
    }
}

proof fn lemma_cf_place(
    objc: ObjC,
    keys: CFDictionaryKeyCallBacks,
    d: DictView,
    key: id,
    hash: u32,
    b: int,
    i: int,
)
    requires
        hashes_to(objc, keys, key, hash),
        stands_at(objc, keys, d, key, hash, b, i),
        answered(objc, keys, d.buckets[b].1, key),
    ensures
        cf_place(objc, keys, d, key) == if i < d.buckets[b].1.len() {
            Some((b, i))
        } else {
            None
        },
{
    assert(keys.hash_of(objc, key) == hash);
    lemma_bucket_index_is(d.buckets, hash, 0, b);
    lemma_first_pair(objc, keys, d.buckets[b].1, key, 0, i);
}

/// What a `CFDictionary` answers for a key: the value of the first pair, in the
/// bucket for the key's hash value, whose key is taken for it, and null where
/// there is none.
pub proof fn law_cf_value(
    objc: ObjC,
    keys: CFDictionaryKeyCallBacks,
    d: DictView,
    key: id,
    hash: u32,
    b: int,
    i: int,
)
    requires
        hashes_to(objc, keys, key, hash),
        stands_at(objc, keys, d, key, hash, b, i),
        answered(objc, keys, d.buckets[b].1, key),
    ensures
        cf_value(objc, keys, d, key) == if i < d.buckets[b].1.len() {
            d.buckets[b].1[i].1
        } else {
            0
        },
{
    lemma_cf_place(objc, keys, d, key, hash, b, i);
}

/// A key for whose hash value there is no bucket is answered with null, and
/// removing it changes nothing and calls nothing.
pub proof fn law_cf_no_bucket(
    objc: ObjC,
    keys: CFDictionaryKeyCallBacks,
    values: CFDictionaryValueCallBacks,
    d: DictView,
    key: id,
    hash: u32,
)
    requires
        hashes_to(objc, keys, key, hash),
        forall|c: int| 0 <= c < d.buckets.len() ==> (#[trigger] d.buckets[c]).0 != hash,
    ensures
        cf_value(objc, keys, d, key) == 0,
        cf_removed(objc, keys, d, key) == d,
        cf_remove_actions(objc, keys, values, d, key).len() == 0,
{
    assert(keys.hash_of(objc, key) == hash);
    lemma_bucket_index(d.buckets, hash, 0);
}

/// A function that is null is not called; any other is called once, with the
/// object behind a null.
pub proof fn law_calls(func: u32, object: id)
    ensures
        func == 0 ==> calls(func, object).len() == 0,
        func != 0 ==> calls(func, object).len() == 1 && calls(func, object)[0] == Action::Call(
            func,
            0,
            object,
        ),
{
}

/// A removal takes out the pair that is found and no other, in its place, and
/// releases its key and then its value, each where there is a function for it.
pub proof fn law_cf_removed(
    objc: ObjC,
    keys: CFDictionaryKeyCallBacks,
    values: CFDictionaryValueCallBacks,
    d: DictView,
    key: id,
    hash: u32,
    b: int,
    i: int,
)
    requires
        hashes_to(objc, keys, key, hash),
        stands_at(objc, keys, d, key, hash, b, i),
        answered(objc, keys, d.buckets[b].1, key),
    ensures
        ({
            let e = cf_removed(objc, keys, d, key);
            let a = cf_remove_actions(objc, keys, values, d, key);
            let found = i < d.buckets[b].1.len();
            let pair = d.buckets[b].1[i];
            &&& !found ==> e == d && a.len() == 0
            &&& e.buckets.len() == d.buckets.len()
            &&& forall|c: int|
                0 <= c < d.buckets.len() ==> (#[trigger] e.buckets[c]).0 == d.buckets[c].0
            &&& forall|c: int|
                0 <= c < d.buckets.len() && c != b ==> (#[trigger] e.buckets[c]).1
                    == d.buckets[c].1
            &&& found ==> {
                &&& e.count == d.count - 1
                &&& e.buckets[b].1.len() == d.buckets[b].1.len() - 1
                &&& forall|j: int|
                    0 <= j < d.buckets[b].1.len() && j != i ==> #[trigger] d.buckets[b].1[j]
                        == e.buckets[b].1[if j < i {
                        j
                    } else {
                        j - 1
                    }]
                &&& keys.release != 0 ==> a.len() > 0 && a[0] == Action::Call(
                    keys.release,
                    0,
                    pair.0,
                )
                &&& values.release != 0 ==> a.len() > 0 && a.last() == Action::Call(
                    values.release,
                    0,
                    pair.1,
                )
                &&& a.len() == (if keys.release != 0 {
                    1int
                } else {
                    0
                }) + (if values.release != 0 {
                    1int
                } else {
                    0
                })
            }
        }),
{
    lemma_cf_place(objc, keys, d, key, hash, b, i);
}

/// An insertion puts its pair, with the key and the value as they were retained,
/// last into the bucket for the key's hash value, which is made behind the others
/// where there is none. A pair whose key is taken for the retained key goes first,
/// and it alone is released.
pub proof fn law_cf_inserted(
    objc: ObjC,
    keys: CFDictionaryKeyCallBacks,
    values: CFDictionaryValueCallBacks,
    d: DictView,
    key: id,
    value: id,
    kept: id,
    worth: id,
    hash: u32,
    b: int,
    i: int,
)
    requires
        hashes_to(objc, keys, key, hash),
        hashes_to(objc, keys, kept, hash),
        keys.retain == 0 ==> kept == key,
        keys.retain != 0 ==> objc.answer(keys.retain, 0, key) == Some(kept),
        values.retain == 0 ==> worth == value,
        values.retain != 0 ==> objc.answer(values.retain, 0, value) == Some(worth),
        if b < d.buckets.len() {
            &&& stands_at(objc, keys, d, kept, hash, b, i)
            &&& answered(objc, keys, d.buckets[b].1, kept)
        } else {
            &&& b == d.buckets.len()
            &&& forall|c: int| 0 <= c < d.buckets.len() ==> (#[trigger] d.buckets[c]).0 != hash
        },
    ensures
        ({
            let e = cf_inserted(objc, keys, values, d, key, value);
            let a = cf_insert_actions(objc, keys, values, d, key);
            let there = b < d.buckets.len();
            let found = there && i < d.buckets[b].1.len();
            &&& e.buckets[b].0 == hash
            &&& e.buckets[b].1.last() == (kept, worth)
            &&& e.count == if found {
                d.count
            } else {
                d.count + 1
            }
            &&& e.buckets.len() == if there {
                d.buckets.len()
            } else {
                d.buckets.len() + 1
            }
            &&& forall|c: int|
                0 <= c < d.buckets.len() && c != b ==> #[trigger] e.buckets[c] == d.buckets[c]
            &&& !there ==> e.buckets[b].1.len() == 1
            &&& there ==> e.buckets[b].1.len() == d.buckets[b].1.len() + (if found {
                0int
            } else {
                1
            })
            &&& there ==> forall|j: int|
                0 <= j < d.buckets[b].1.len() && j != i ==> #[trigger] d.buckets[b].1[j]
                    == e.buckets[b].1[if j < i {
                    j
                } else {
                    j - 1
                }]
            &&& !found ==> a.len() == 0
            &&& found ==> a == cf_remove_actions(objc, keys, values, d, kept)
        }),
{
    assert(keys.hash_of(objc, key) == hash);
    assert(keys.retained(objc, key) == kept);
    if b < d.buckets.len() {
        lemma_bucket_index_is(d.buckets, hash, 0, b);
        lemma_cf_place(objc, keys, d, kept, hash, b, i);
        law_cf_removed(objc, keys, values, d, kept, hash, b, i);
    } else {
        lemma_bucket_index(d.buckets, hash, 0);
    }
}

} // verus!

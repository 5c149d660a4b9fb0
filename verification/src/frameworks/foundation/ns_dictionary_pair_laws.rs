//! Which pairs a dictionary is built of, what it then answers, and what it
//! sends to its keys and values.
use vstd::prelude::*;

use crate::environment::Environment;
use crate::frameworks::foundation::ns_dictionary::{
    argument_pairs, autorelease_actions, copied_pairs, description_text, dictionary_built,
    guest_pairs, insert_actions, key_callbacks_at, keys_match, keys_of, law_insert_lookup,
    law_remove_lookup, lemma_bucket_index, lemma_bucket_index_is, lemma_pair_index,
    lemma_pair_index_is, object_removed_for_key, object_set_for_key, objects_and_keys,
    release_actions, remove_actions, retain_actions, value_callbacks_at, values_of, zipped,
    CFDictionaryKeyCallBacks, DictView, Pair,
};
use crate::frameworks::foundation::ns_dictionary_laws::{
    keys_lawful, law_built_absent, law_built_last_wins,
};
use crate::mem::{le_u32, signed32, Mem};
use crate::objc::{id, nil, Action, EqualPair, ObjC};

verus! {

/// The first `n` places of both arrays hold objects, and then one of them ends
/// or holds a null.
pub open spec fn filled(objects: Seq<id>, keys: Seq<id>, n: int) -> bool {
    &&& 0 <= n <= keys.len() && n <= objects.len()
    &&& forall|i: int| 0 <= i < n ==> #[trigger] keys[i] != 0 && objects[i] != 0
    &&& n == keys.len() || n == objects.len() || keys[n] == 0 || objects[n] == 0
}

/// The pairs of two arrays: as many as there are before an end or a null, each
/// key with the object at its own place.
pub proof fn law_zipped(objects: Seq<id>, keys: Seq<id>, n: int)
    requires
        filled(objects, keys, n),
    ensures
        zipped(objects, keys, 0).len() == n,
        forall|i: int|
            0 <= i < n ==> #[trigger] zipped(objects, keys, 0)[i] == (keys[i], objects[i]),
{
    lemma_zipped(objects, keys, n, 0);
}

proof fn lemma_zipped(objects: Seq<id>, keys: Seq<id>, n: int, from: int)
    requires
        filled(objects, keys, n),
        0 <= from <= n,
    ensures
        zipped(objects, keys, from).len() == n - from,
        forall|i: int|
            0 <= i < n - from ==> #[trigger] zipped(objects, keys, from)[i] == (
                keys[from + i],
                objects[from + i],
            ),
    decreases n - from,
{
    if from < n {
        lemma_zipped(objects, keys, n, from + 1);
        let rest = zipped(objects, keys, from + 1);
        assert(keys[from] != 0);
        assert forall|i: int| 0 <= i < n - from implies #[trigger] zipped(objects, keys, from)[i]
            == (keys[from + i], objects[from + i]) by {
            if i > 0 {
                assert(zipped(objects, keys, from)[i] == rest[i - 1]);
            }
        }
    }
}

/// The copied key number `i` is the last of the first `n` that counts as `key`.
pub open spec fn last_equal(objc: ObjC, keys: Seq<id>, n: int, i: int, key: id) -> bool {
    &&& 0 <= i < n
    &&& same_key(objc, objc.copy_of(keys[i]), key)
    &&& forall|j: int| i < j < n ==> !same_key(objc, objc.copy_of(#[trigger] keys[j]), key)
}

/// The key that is held is the one looked for, or answers that it equals it.
pub open spec fn same_key(objc: ObjC, held: id, key: id) -> bool {
    held == key || objc.equals@.contains(EqualPair { receiver: held, argument: key })
}

/// A dictionary that was built from two arrays answers, for each key, with the
/// object at its place; where keys are equal, with that of the last. `known` are
/// keys among which equality is one.
pub proof fn law_objects_for_keys(
    before: Environment,
    after: Environment,
    this: id,
    objects: Seq<id>,
    keys: Seq<id>,
    n: int,
    known: Set<id>,
    i: int,
    key: id,
)
    requires
        filled(objects, keys, n),
        dictionary_built(before, after, this, zipped(objects, keys, 0)),
        keys_lawful(before.objc, known),
        forall|j: int| 0 <= j < n ==> known.contains(before.objc.copy_of(#[trigger] keys[j])),
        known.contains(key),
        last_equal(before.objc, keys, n, i, key),
    ensures
        after.objc.dictionaries@.contains_key(this),
        after.objc.dictionaries@[this].view().value(before.objc, key) == objects[i],
{
    let pairs = zipped(objects, keys, 0);
    let objc = before.objc;
    law_zipped(objects, keys, n);
    assert forall|j: int| 0 <= j < pairs.len() implies known.contains(
        objc.copy_of((#[trigger] pairs[j]).0),
    ) by {
        assert(pairs[j].0 == keys[j]);
    }
    assert(pairs[i] == (keys[i], objects[i]));
    assert forall|j: int| i < j < pairs.len() implies !keys_match(
        objc,
        objc.copy_of((#[trigger] pairs[j]).0),
        key,
    ) by {
        assert(pairs[j].0 == keys[j]);
    }
    law_built_last_wins(objc, pairs, known, i, key);
}

/// A key that equals none of those that a dictionary was built from is answered
/// with null.
pub proof fn law_no_object_for_key(
    before: Environment,
    after: Environment,
    this: id,
    objects: Seq<id>,
    keys: Seq<id>,
    n: int,
    known: Set<id>,
    key: id,
)
    requires
        filled(objects, keys, n),
        dictionary_built(before, after, this, zipped(objects, keys, 0)),
        keys_lawful(before.objc, known),
        forall|j: int| 0 <= j < n ==> known.contains(before.objc.copy_of(#[trigger] keys[j])),
        known.contains(key),
        forall|j: int|
            0 <= j < n ==> !same_key(before.objc, before.objc.copy_of(#[trigger] keys[j]), key),
    ensures
        after.objc.dictionaries@[this].view().value(before.objc, key) == 0,
{
    let pairs = zipped(objects, keys, 0);
    law_zipped(objects, keys, n);
    assert forall|j: int| 0 <= j < pairs.len() implies known.contains(
        before.objc.copy_of((#[trigger] pairs[j]).0),
    ) && !keys_match(before.objc, before.objc.copy_of(pairs[j].0), key) by {
        assert(pairs[j].0 == keys[j]);
    }
    law_built_absent(before.objc, pairs, known, key);
}

/// The first `n` pairs of an argument list are there: an object that stands
/// apart, its key, and then objects and keys in turn, up to the first null or to
/// an end without a key.
pub open spec fn listed(args: Seq<id>, n: int) -> bool {
    &&& 1 <= n
    &&& 2 * n - 1 <= args.len()
    &&& forall|i: int| 0 <= i < 2 * n - 1 ==> #[trigger] args[i] != 0
    &&& 2 * n >= args.len() || args[2 * n - 1] == 0 || args[2 * n] == 0
}

/// The pairs of an argument list: the first key goes with the object that stands
/// apart, and each later key with the object before it. Without a first key there
/// are none.
pub proof fn law_arguments(first: id, args: Seq<id>, n: int)
    ensures
        args.len() == 0 || args[0] == 0 ==> objects_and_keys(first, args).len() == 0,
        listed(args, n) ==> {
            let pairs = objects_and_keys(first, args);
            &&& pairs.len() == n
            &&& pairs[0] == (args[0], first)
            &&& forall|i: int|
                1 <= i < n ==> #[trigger] pairs[i] == (args[2 * i], args[2 * i - 1])
        },
{
    if listed(args, n) {
        assert(args[0] != 0);
        lemma_arguments(args, n, 1);
        let rest = argument_pairs(args, 1);
        let pairs = objects_and_keys(first, args);
        assert forall|i: int| 1 <= i < n implies #[trigger] pairs[i] == (
            args[2 * i],
            args[2 * i - 1],
        ) by {
            assert(pairs[i] == rest[i - 1]);
        }
    }
}

proof fn lemma_arguments(args: Seq<id>, n: int, k: int)
    requires
        listed(args, n),
        1 <= k <= n,
    ensures
        argument_pairs(args, 2 * k - 1).len() == n - k,
        forall|i: int|
            0 <= i < n - k ==> #[trigger] argument_pairs(args, 2 * k - 1)[i] == (
                args[2 * (k + i)],
                args[2 * (k + i) - 1],
            ),
    decreases n - k,
{
    if k < n {
        assert(args[2 * k - 1] != 0 && args[2 * k] != 0);
        lemma_arguments(args, n, k + 1);
        let rest = argument_pairs(args, 2 * k + 1);
        assert(2 * (k + 1) - 1 == 2 * k + 1);
        let all = argument_pairs(args, 2 * k - 1);
        assert forall|i: int| 0 <= i < n - k implies #[trigger] all[i] == (
            args[2 * (k + i)],
            args[2 * (k + i) - 1],
        ) by {
            if i > 0 {
                assert(all[i] == rest[i - 1]);
                assert(k + 1 + (i - 1) == k + i);
            }
        }
    }
}

/// How many of the first `n` words at `p` are not zero.
pub open spec fn solid_words(mem: Mem, p: int, n: int) -> int
    decreases n,
{
    if n <= 0 {
        0
    } else {
        solid_words(mem, p, n - 1) + if le_u32(mem@, p + 4 * (n - 1)) != 0 {
            1int
        } else {
            0
        }
    }
}

/// The pairs of two guest arrays: each key that is not null, with the object at
/// its own place, in the order of the arrays.
pub proof fn law_guest_arrays(mem: Mem, objects: int, keys: int, n: int, i: int)
    requires
        0 <= i < n,
    ensures
        guest_pairs(mem, objects, keys, n).len() == solid_words(mem, keys, n),
        le_u32(mem@, keys + 4 * i) != 0 ==> {
            let k = solid_words(mem, keys, i);
            &&& 0 <= k < guest_pairs(mem, objects, keys, n).len()
            &&& guest_pairs(mem, objects, keys, n)[k].0 == le_u32(mem@, keys + 4 * i)
            &&& guest_pairs(mem, objects, keys, n)[k].1 == le_u32(mem@, objects + 4 * i)
        },
    decreases n,
{
    assert(0 <= le_u32(mem@, keys + 4 * (n - 1)) < 0x1_0000_0000);
    assert(0 <= le_u32(mem@, objects + 4 * (n - 1)) < 0x1_0000_0000);
    lemma_guest_count(mem, objects, keys, n);
    lemma_guest_count(mem, objects, keys, n - 1);
    if i < n - 1 {
        law_guest_arrays(mem, objects, keys, n - 1, i);
    }
}

proof fn lemma_guest_count(mem: Mem, objects: int, keys: int, n: int)
    ensures
        guest_pairs(mem, objects, keys, n).len() == solid_words(mem, keys, n),
    decreases n,
{
    if n > 0 {
        assert(0 <= le_u32(mem@, keys + 4 * (n - 1)) < 0x1_0000_0000);
        lemma_guest_count(mem, objects, keys, n - 1);
    }
}

/// What a key is answered with: the value of the first pair, in the bucket for
/// the key's hash value, whose key is the same or answers that it is equal; and
/// null where there is none.
pub proof fn law_value(d: DictView, objc: ObjC, key: id, b: int, i: int)
    requires
        0 <= b < d.buckets.len(),
        d.buckets[b].0 == objc.hash_of(key),
        forall|c: int| 0 <= c < b ==> (#[trigger] d.buckets[c]).0 != objc.hash_of(key),
        0 <= i <= d.buckets[b].1.len(),
        i < d.buckets[b].1.len() ==> same_key(objc, d.buckets[b].1[i].0, key),
        forall|j: int| 0 <= j < i ==> !same_key(objc, (#[trigger] d.buckets[b].1[j]).0, key),
    ensures
        d.value(objc, key) == if i < d.buckets[b].1.len() {
            d.buckets[b].1[i].1
        } else {
            0
        },
{
    lemma_bucket_index_is(d.buckets, objc.hash_of(key), 0, b);
    lemma_pair_index_is(objc, d.buckets[b].1, key, 0, i);
}

/// A key for whose hash value there is no bucket is answered with null.
pub proof fn law_value_without_bucket(d: DictView, objc: ObjC, key: id)
    requires
        forall|c: int| 0 <= c < d.buckets.len() ==> (#[trigger] d.buckets[c]).0 != objc.hash_of(
            key,
        ),
    ensures
        d.value(objc, key) == 0,
{
    lemma_bucket_index(d.buckets, objc.hash_of(key), 0);
}

/// How many pairs the first `b` buckets hold.
pub open spec fn pairs_in(d: DictView, b: int) -> int
    decreases b,
{
    if b <= 0 {
        0
    } else {
        pairs_in(d, b - 1) + d.buckets[b - 1].1.len()
    }
}

/// All pairs are listed, bucket by bucket and in a bucket in order; so are the
/// keys and the values.
pub proof fn law_pairs_listed(d: DictView, b: int, i: int)
    requires
        0 <= b < d.buckets.len(),
        0 <= i < d.buckets[b].1.len(),
    ensures
        ({
            let k = pairs_in(d, b) + i;
            &&& d.pairs().len() == pairs_in(d, d.buckets.len() as int)
            &&& 0 <= k < d.pairs().len()
            &&& d.pairs()[k] == d.buckets[b].1[i]
            &&& keys_of(d.pairs()).len() == d.pairs().len()
            &&& keys_of(d.pairs())[k] == d.buckets[b].1[i].0
            &&& values_of(d.pairs()).len() == d.pairs().len()
            &&& values_of(d.pairs())[k] == d.buckets[b].1[i].1
        }),
{
    lemma_pairs_listed(d, b, i, d.buckets.len() as int);
}

proof fn lemma_pairs_listed(d: DictView, b: int, i: int, n: int)
    requires
        0 <= b < n <= d.buckets.len(),
        0 <= i < d.buckets[b].1.len(),
    ensures
        d.pairs_before(n).len() == pairs_in(d, n),
        0 <= pairs_in(d, b),
        pairs_in(d, b) + i < pairs_in(d, n),
        d.pairs_before(n)[pairs_in(d, b) + i] == d.buckets[b].1[i],
    decreases n,
{
    lemma_pairs_counted(d, n - 1);
    lemma_pairs_counted(d, b);
    if b < n - 1 {
        lemma_pairs_listed(d, b, i, n - 1);
    }
}

proof fn lemma_pairs_counted(d: DictView, n: int)
    ensures
        d.pairs_before(n).len() == pairs_in(d, n),
        0 <= pairs_in(d, n),
    decreases n,
{
    if n > 0 {
        lemma_pairs_counted(d, n - 1);
    }
}

/// The pairs that a dictionary is copied with: every key, with what is looked up
/// for it.
pub proof fn law_copied(objc: ObjC, d: DictView, i: int)
    requires
        0 <= i < d.pairs().len(),
    ensures
        copied_pairs(objc, d).len() == d.pairs().len(),
        copied_pairs(objc, d)[i].0 == d.pairs()[i].0,
        copied_pairs(objc, d)[i].1 == d.value(objc, d.pairs()[i].0),
{
}

/// What setting a value sends: the value is retained, and the one that it
/// replaces released after that. A key is copied, or else retained first.
pub proof fn law_insert_sends(d: DictView, objc: ObjC, key: id, value: id)
    requires
        key != 0,
        value != 0,
    ensures
        d.place(objc, objc.copy_of(key)) is None ==> insert_actions(d, objc, key, value, true)
            == seq![Action::Retain(value)],
        d.place(objc, key) is None ==> insert_actions(d, objc, key, value, false) == seq![
            Action::Retain(key),
            Action::Retain(value),
        ],
        ({
            let replaced = d.value(objc, objc.copy_of(key));
            replaced != 0 ==> insert_actions(d, objc, key, value, true) == seq![
                Action::Retain(value),
                Action::Release(replaced),
            ]
        }),
        ({
            let replaced = d.value(objc, key);
            replaced != 0 ==> insert_actions(d, objc, key, value, false) == seq![
                Action::Retain(key),
                Action::Retain(value),
                Action::Release(replaced),
            ]
        }),
{
}

/// What a removal sends: the key that is held and its value are released, in
/// this order; nothing where the key is not there.
pub proof fn law_remove_sends(d: DictView, objc: ObjC, key: id)
    ensures
        match d.place(objc, key) {
            None => remove_actions(d, objc, key).len() == 0,
            Some((b, i)) => d.buckets[b].1[i].0 != 0 && d.buckets[b].1[i].1 != 0
                ==> remove_actions(d, objc, key) == seq![
                Action::Release(d.buckets[b].1[i].0),
                Action::Release(d.buckets[b].1[i].1),
            ],
        },
{
}

/// Every key and value is released once when a dictionary goes, pair by pair.
pub proof fn law_release_all(pairs: Seq<Pair>, i: int)
    requires
        forall|j: int| 0 <= j < pairs.len() ==> (#[trigger] pairs[j]).0 != 0 && pairs[j].1 != 0,
        0 <= i < pairs.len(),
    ensures
        release_actions(pairs).len() == 2 * pairs.len(),
        release_actions(pairs)[2 * i] == Action::Release(pairs[i].0),
        release_actions(pairs)[2 * i + 1] == Action::Release(pairs[i].1),
    decreases pairs.len(),
{
    let front = pairs.drop_last();
    assert forall|j: int| 0 <= j < front.len() implies (#[trigger] front[j]).0 != 0 && front[j].1
        != 0 by {
        assert(front[j] == pairs[j]);
    }
    let last = pairs.last();
    let two = seq![Action::Release(last.0), Action::Release(last.1)];
    assert(pairs[pairs.len() - 1].0 != 0);
    assert(release_actions(pairs) == release_actions(front) + (seq![Action::Release(last.0)]
        + seq![Action::Release(last.1)]));
    assert(seq![Action::Release(last.0)] + seq![Action::Release(last.1)] =~= two);
    if i < front.len() {
        law_release_all(front, i);
        assert(front[i] == pairs[i]);
    } else if front.len() > 0 {
        law_release_all(front, 0);
    } else {
        assert(release_actions(front).len() == 0);
    }
}

/// Objects are retained one by one, and autoreleased one by one.
pub proof fn law_retain_all(objects: Seq<id>, i: int)
    requires
        forall|j: int| 0 <= j < objects.len() ==> #[trigger] objects[j] != 0,
        0 <= i < objects.len(),
    ensures
        retain_actions(objects).len() == objects.len(),
        retain_actions(objects)[i] == Action::Retain(objects[i]),
        autorelease_actions(objects).len() == objects.len(),
        autorelease_actions(objects)[i] == Action::Autorelease(objects[i]),
    decreases objects.len(),
{
    let front = objects.drop_last();
    let last = objects.last();
    assert forall|j: int| 0 <= j < front.len() implies #[trigger] front[j] != 0 by {
        assert(front[j] == objects[j]);
    }
    assert(objects[objects.len() - 1] != 0);
    assert(retain_actions(objects) == retain_actions(front) + seq![Action::Retain(last)]);
    assert(autorelease_actions(objects) == autorelease_actions(front).push(
        Action::Autorelease(last),
    ));
    if i < front.len() {
        law_retain_all(front, i);
        assert(front[i] == objects[i]);
    } else if front.len() > 0 {
        law_retain_all(front, 0);
    } else {
        assert(retain_actions(front).len() == 0);
        assert(autorelease_actions(front).len() == 0);
    }
}

/// A description holds a line for each pair, between braces: one pair more is one
/// line more, with a tab, the key, an equals sign between spaces, the value and a
/// semicolon.
pub proof fn law_description(items: Seq<(Vec<u8>, Vec<u8>)>, key: Vec<u8>, value: Vec<u8>)
    ensures
        items.len() == 0 ==> description_text(items) == seq![0x7bu8, 0x0a, 0x7d],
        ({
            let t = description_text(items);
            description_text(items.push((key, value))) == t.drop_last() + seq![0x09u8] + key@
                + seq![0x20u8, 0x3d, 0x20] + value@ + seq![0x3bu8, 0x0a, 0x7d]
        }),
        description_text(items).last() == 0x7d,
{
    assert(items.push((key, value)).drop_last() =~= items);
    assert(description_text(items.push((key, value))) =~= description_text(items).drop_last()
        + seq![0x09u8] + key@ + seq![0x20u8, 0x3d, 0x20] + value@ + seq![0x3bu8, 0x0a, 0x7d]);
    assert(items.len() == 0 ==> description_text(items) =~= seq![0x7bu8, 0x0a, 0x7d]);
}

/// A mutable dictionary answers, for a key that was set, with the object that it
/// was given, under the copy of the key; a null key or object changes nothing.
pub proof fn law_set_object(before: Environment, after: Environment, this: id, object: id, key: id)
    requires
        before.objc.dictionaries@[this].view().wf(),
        object_set_for_key(before, after, this, object, key),
    ensures
        object == 0 || key == 0 ==> after == before,
        object != 0 && key != 0 ==> {
            &&& after.objc.dictionaries@[this].view().value(
                before.objc,
                before.objc.copy_of(key),
            ) == object
            &&& forall|d: id|
                d != this && before.objc.dictionaries@.contains_key(d)
                    ==> #[trigger] after.objc.dictionaries@[d] == before.objc.dictionaries@[d]
            &&& after.mem == before.mem
        },
{
    if object != nil && key != nil {
        law_insert_lookup(
            before.objc.dictionaries@[this].view(),
            before.objc,
            before.objc.copy_of(key),
            object,
        );
    }
}

/// A key that was removed is answered with null, where no other key that is held
/// equals it.
pub proof fn law_remove_object(before: Environment, after: Environment, this: id, key: id)
    requires
        before.objc.dictionaries@[this].view().wf(),
        object_removed_for_key(before, after, this, key),
        ({
            let d = before.objc.dictionaries@[this].view();
            forall|b: int, i: int, j: int|
                #![trigger d.buckets[b].1[i], d.buckets[b].1[j]]
                0 <= b < d.buckets.len() && 0 <= i < j < d.buckets[b].1.len() ==> !(same_key(
                    before.objc,
                    d.buckets[b].1[i].0,
                    key,
                ) && same_key(before.objc, d.buckets[b].1[j].0, key))
        }),
    ensures
        key == 0 ==> after == before,
        key != 0 ==> after.objc.dictionaries@[this].view().value(before.objc, key) == 0,
{
    let d = before.objc.dictionaries@[this].view();
    if key != nil {
        lemma_bucket_index(d.buckets, before.objc.hash_of(key), 0);
        if let Some((b, i)) = d.place(before.objc, key) {
            lemma_pair_index(
                before.objc,
                d.buckets[b].1,
                key,
                0,
            );
            assert forall|j: int| 0 <= j < d.buckets[b].1.len() && j != i implies !keys_match(
                before.objc,
                (#[trigger] d.buckets[b].1[j]).0,
                key,
            ) by {
                assert(keys_match(before.objc, d.buckets[b].1[i].0, key));
            }
        }
        law_remove_lookup(d, before.objc, key);
    }
}

/// The functions of a `CFDictionary` lie one after the other in memory, behind
/// the version.
pub proof fn law_callbacks(mem: Mem, ptr: int)
    ensures
        ({
            let k = key_callbacks_at(mem, ptr);
            let v = value_callbacks_at(mem, ptr);
            &&& k.version == signed32(le_u32(mem@, ptr)) && v.version == k.version
            &&& k.retain == le_u32(mem@, ptr + 4) && v.retain == k.retain
            &&& k.release == le_u32(mem@, ptr + 8) && v.release == k.release
            &&& k.copy_desc == le_u32(mem@, ptr + 12) && v.copy_desc == k.copy_desc
            &&& k.equal == le_u32(mem@, ptr + 16) && v.equal == k.equal
            &&& k.hash == le_u32(mem@, ptr + 20)
        }),
{
    assert(0 <= le_u32(mem@, ptr) < 0x1_0000_0000);
    assert(0 <= le_u32(mem@, ptr + 4) < 0x1_0000_0000);
    assert(0 <= le_u32(mem@, ptr + 8) < 0x1_0000_0000);
    assert(0 <= le_u32(mem@, ptr + 12) < 0x1_0000_0000);
    assert(0 <= le_u32(mem@, ptr + 16) < 0x1_0000_0000);
    assert(0 <= le_u32(mem@, ptr + 20) < 0x1_0000_0000);
}

/// Without functions of its own a `CFDictionary` goes by the numbers of its
/// keys: a key is its own hash value, equals itself alone and is kept as it is.
pub proof fn law_plain_keys(objc: ObjC, keys: CFDictionaryKeyCallBacks, a: id, b: id)
    ensures
        keys.hash == 0 ==> keys.hash_of(objc, a) == a,
        keys.equal == 0 ==> keys.equal_keys(objc, a, b) == (a == b),
        keys.retain == 0 ==> keys.retained(objc, a) == a,
        keys.hash != 0 ==> objc.answer(keys.hash, a, 0) == Some(keys.hash_of(objc, a))
            || objc.answer(keys.hash, a, 0) is None,
        keys.equal != 0 && objc.answer(keys.equal, a, b) is Some ==> keys.equal_keys(objc, a, b)
            == (objc.answer(keys.equal, a, b) != Some(0u32)),
        keys.retain != 0 && objc.answer(keys.retain, 0, a) is Some ==> objc.answer(
            keys.retain,
            0,
            a,
        ) == Some(keys.retained(objc, a)),
{
}

} // verus!

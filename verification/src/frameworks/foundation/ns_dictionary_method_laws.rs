//! What the methods of a dictionary come to that go over several keys.
use vstd::prelude::*;

use crate::environment::Environment;
use crate::frameworks::foundation::ns_dictionary::{
    object_removed_for_key, object_set_for_key, release_actions, DictView, Pair,
};
use crate::frameworks::foundation::ns_dictionary_methods::{
    answers_equal, block_invoke, dictionaries_equal, dictionary_dropped, entries_set, entry_set,
    entry_steps, entry_valued, key_released, keys_removed, matching_keys, remove_steps, solid_pairs, unwrapped,
    value_set, value_steps, values_set,
};
use crate::frameworks::foundation::ns_dictionary_pair_laws::law_set_object;
use crate::mem::{le_u32, Mem};
use crate::objc::{id, EqualPair, ObjC};

verus! {

/// The object answers that it equals the other; null answers no.
pub open spec fn says_equal(objc: ObjC, a: id, b: id) -> bool {
    a != 0 && objc.equals@.contains(EqualPair { receiver: a, argument: b })
}

/// The keys whose values equal an object, in order: one pair more adds its key
/// where the object answers that it equals the value, and nothing otherwise.
pub proof fn law_matching_keys(objc: ObjC, pairs: Seq<Pair>, key: id, value: id, object: id)
    ensures
        matching_keys(objc, Seq::empty(), object).len() == 0,
        says_equal(objc, object, value) ==> matching_keys(objc, pairs.push((key, value)), object)
            == matching_keys(objc, pairs, object).push(key),
        !says_equal(objc, object, value) ==> matching_keys(
            objc,
            pairs.push((key, value)),
            object,
        ) == matching_keys(objc, pairs, object),
{
    assert(pairs.push((key, value)).drop_last() =~= pairs);
}

/// The pairs without a null in them, in order.
pub proof fn law_solid_pairs(pairs: Seq<Pair>, key: id, value: id)
    ensures
        solid_pairs(Seq::empty()).len() == 0,
        key != 0 && value != 0 ==> solid_pairs(pairs.push((key, value))) == solid_pairs(
            pairs,
        ).push((key, value)),
        key == 0 || value == 0 ==> solid_pairs(pairs.push((key, value))) == solid_pairs(pairs),
{
    assert(pairs.push((key, value)).drop_last() =~= pairs);
}

/// Dictionaries are equal where they have as many keys, and the value of each key
/// in the one answers that it equals that in the other. A dictionary of one more
/// key is not equal, nor is one with a value that is told apart.
pub proof fn law_dictionaries_equal(objc: ObjC, d: DictView, e: DictView, i: int)
    requires
        0 <= i < d.pairs().len(),
    ensures
        d.count != e.count ==> !dictionaries_equal(objc, d, e),
        dictionaries_equal(objc, d, e) ==> says_equal(
            objc,
            d.value(objc, d.pairs()[i].0),
            e.value(objc, d.pairs()[i].0),
        ),
        (forall|j: int|
            0 <= j < d.pairs().len() ==> says_equal(
                objc,
                d.value(objc, (#[trigger] d.pairs()[j]).0),
                e.value(objc, d.pairs()[j].0),
            )) && d.count == e.count ==> dictionaries_equal(objc, d, e),
{
    assert(forall|a: id, b: id| answers_equal(objc, a, b) == says_equal(objc, a, b));
}

/// Setting entries is setting all but the last and then the last, which is then
/// looked up with its value, under the copy of its key.
pub proof fn law_entries_set(
    before: Environment,
    after: Environment,
    this: id,
    entries: Seq<Pair>,
    last: Pair,
)
    requires
        entries_set(before, after, this, entries.push(last)),
    ensures
        exists|mid: Environment|
            #![trigger entries_set(before, mid, this, entries)]
            {
                &&& entries_set(before, mid, this, entries)
                &&& entry_set(mid, after, this, last)
                &&& last.0 != 0 && last.1 != 0 && mid.objc.dictionaries@[this].view().wf()
                    ==> after.objc.dictionaries@[this].view().value(
                    mid.objc,
                    mid.objc.copy_of(last.0),
                ) == last.1
            },
{
    let all = entries.push(last);
    let n = entries.len() as int;
    let trace = choose|trace: Seq<Environment>| #[trigger]
        entry_steps(trace, this, all) && trace[0] == before && trace.last() == after;
    let front = trace.drop_last();
    assert forall|i: int| #![trigger entries[i]] 0 <= i < n implies entry_set(
        front[i],
        front[i + 1],
        this,
        entries[i],
    ) by {
        assert(all[i] == entries[i]);
    }
    assert(entry_steps(front, this, entries));
    let mid = trace[n];
    assert(front.last() == mid && front[0] == before);
    assert(entries_set(before, mid, this, entries));
    assert(all[n] == last);
    assert(entry_set(trace[n], trace[n + 1], this, all[n]));
    let set = choose|set: Environment| #[trigger]
        object_set_for_key(mid, set, this, last.1, last.0)
            && key_released(set, after, last.0);
    if mid.objc.dictionaries@[this].view().wf() {
        law_set_object(mid, set, this, last.1, last.0);
    }
}

/// Setting, giving or removing nothing changes nothing.
pub proof fn law_no_entries_set(before: Environment, after: Environment, this: id)
    ensures
        entries_set(before, after, this, Seq::empty()) ==> after == before,
        values_set(before, after, this, Seq::empty(), 0) ==> after == before,
        keys_removed(before, after, this, Seq::empty()) ==> after == before,
{
}

/// A value that is null, or is the object that stands for null, takes its key
/// away; any other is set.
pub proof fn law_value_set(
    before: Environment,
    after: Environment,
    this: id,
    value: id,
    key: id,
    ns_null: id,
)
    ensures
        value == 0 ==> value_set(before, after, this, value, key) == object_removed_for_key(
            before,
            after,
            this,
            key,
        ),
        value != 0 ==> value_set(before, after, this, value, key) == object_set_for_key(
            before,
            after,
            this,
            value,
            key,
        ),
        unwrapped(ns_null, ns_null) == 0,
        value != ns_null ==> unwrapped(value, ns_null) == value,
{
}

/// Giving several values is giving all but the last, and then the last.
pub proof fn law_values_set(
    before: Environment,
    after: Environment,
    this: id,
    entries: Seq<Pair>,
    last: Pair,
    ns_null: id,
)
    requires
        values_set(before, after, this, entries.push(last), ns_null),
    ensures
        exists|mid: Environment|
            #![trigger values_set(before, mid, this, entries, ns_null)]
            values_set(before, mid, this, entries, ns_null) && entry_valued(
                mid,
                after,
                this,
                last,
                ns_null,
            ),
{
    let all = entries.push(last);
    let n = entries.len() as int;
    let trace = choose|trace: Seq<Environment>| #[trigger]
        value_steps(trace, this, all, ns_null) && trace[0] == before && trace.last() == after;
    let front = trace.drop_last();
    assert forall|i: int| #![trigger entries[i]] 0 <= i < n implies entry_valued(
        front[i],
        front[i + 1],
        this,
        entries[i],
        ns_null,
    ) by {
        assert(all[i] == entries[i]);
    }
    assert(value_steps(front, this, entries, ns_null));
    let mid = trace[n];
    assert(front.last() == mid && front[0] == before);
    assert(values_set(before, mid, this, entries, ns_null));
    assert(all[n] == last);
}

/// Removing several keys is removing all but the last, and then the last.
pub proof fn law_keys_removed(
    before: Environment,
    after: Environment,
    this: id,
    keys: Seq<id>,
    last: id,
)
    requires
        keys_removed(before, after, this, keys.push(last)),
    ensures
        exists|mid: Environment|
            #![trigger keys_removed(before, mid, this, keys)]
            keys_removed(before, mid, this, keys) && object_removed_for_key(mid, after, this, last),
{
    let all = keys.push(last);
    let n = keys.len() as int;
    let trace = choose|trace: Seq<Environment>| #[trigger]
        remove_steps(trace, this, all) && trace[0] == before && trace.last() == after;
    let front = trace.drop_last();
    assert forall|i: int| #![trigger keys[i]] 0 <= i < n implies object_removed_for_key(
        front[i],
        front[i + 1],
        this,
        keys[i],
    ) by {
        assert(all[i] == keys[i]);
    }
    assert(remove_steps(front, this, keys));
    let mid = trace[n];
    assert(front.last() == mid && front[0] == before);
    assert(keys_removed(before, mid, this, keys));
    assert(all[n] == last);
}

/// A dictionary that goes releases its keys and values, and is gone; the others
/// stay.
pub proof fn law_dropped(before: Environment, after: Environment, this: id, other: id)
    requires
        dictionary_dropped(before, after, this),
    ensures
        !after.objc.dictionaries@.contains_key(this),
        after.objc.actions@ == before.objc.actions@ + release_actions(
            before.objc.dictionaries@[this].view().pairs(),
        ),
        other != this && before.objc.dictionaries@.contains_key(other)
            ==> after.objc.dictionaries@.contains_key(other) && after.objc.dictionaries@[other]
            == before.objc.dictionaries@[other],
{
}

/// The function of a block is its fourth word; without a block there is none.
pub proof fn law_block_invoke(mem: Mem, block: int)
    ensures
        block_invoke(mem, 0) == 0,
        block != 0 ==> block_invoke(mem, block) == le_u32(mem@, block + 12),
{
}

} // verus!

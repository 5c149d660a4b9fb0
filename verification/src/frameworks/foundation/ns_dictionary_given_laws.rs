//! What dictionaries that are handed out are made of, and which keys are held
//! while others are gone over.
use vstd::prelude::*;

use crate::environment::Environment;
use crate::frameworks::foundation::ns_dictionary::{
    autorelease_actions, dictionary_built, dictionary_made, keys_of, keys_taken, object_made,
    retain_actions, Pair,
};
use crate::frameworks::foundation::ns_dictionary_methods::{
    dictionary_given, entries_added, entries_set, keys_held, keys_taken_to_compare, stop_made,
    values_given, values_set,
};
use crate::frameworks::foundation::ns_dictionary_pair_laws::law_retain_all;
use crate::mem::{heap_size, le_bytes, le_u32, lemma_le_bytes_4, Mem};
use crate::objc::{id, Action};

verus! {

/// A new object is a word that names its class, and is known from then on.
pub proof fn law_object_made(before: Environment, after: Environment, class: id, r: id)
    requires
        object_made(before, after, class, r),
    ensures
        le_u32(after.mem@, r as int) == class,
        after.mem.allocated(r as int),
        after.objc.host_objects@ == before.objc.host_objects@.push(r),
        after.objc.actions == before.objc.actions,
        after.fs == before.fs,
{
    lemma_le_bytes_4(class as int);
    assert(le_bytes(class as int, 4).len() == 4);
    assert(heap_size(4) >= 4);
    crate::heap::lemma_chunk_added(before.mem, after.mem, r, 4);
}

/// A dictionary that is handed out is a new object of the class `NSDictionary`,
/// holds its pairs and is autoreleased once, after everything else.
pub proof fn law_dictionary_given(
    before: Environment,
    after: Environment,
    pairs: Seq<Pair>,
    r: id,
)
    requires
        dictionary_given(before, after, pairs, r),
    ensures
        after.objc.actions@.len() > 0,
        after.objc.actions@.last() == Action::Autorelease(r),
        exists|made: Environment, filled: Environment|
            {
                &&& #[trigger] object_made(
                    before,
                    made,
                    before.objc.classes.ns_dictionary,
                    r,
                )
                &&& #[trigger] dictionary_built(made, filled, r, pairs)
                &&& after.objc.actions@ == filled.objc.actions@.push(Action::Autorelease(r))
                &&& after.objc.dictionaries == filled.objc.dictionaries
                &&& after.mem == filled.mem
            },
{
    let class = before.objc.classes.ns_dictionary;
    let filled = choose|made: Environment|
        {
            &&& #[trigger] dictionary_made(before, made, class, pairs, r)
            &&& after == made.with_objc(after.objc)
            &&& after.objc.acted(made.objc, seq![Action::Autorelease(r)])
        };
    let made = choose|made: Environment| #[trigger]
        object_made(before, made, class, r) && dictionary_built(made, filled, r, pairs);
    assert(object_made(before, made, class, r) && dictionary_built(made, filled, r, pairs));
    assert(filled.objc.actions@ + seq![Action::Autorelease(r)] =~= filled.objc.actions@.push(
        Action::Autorelease(r),
    ));
}

/// Taking the keys of a dictionary retains each once and then autoreleases each
/// once, in their order, and changes nothing else.
pub proof fn law_keys_taken(before: Environment, after: Environment, keys: Seq<id>, i: int)
    requires
        keys_taken(before, after, keys),
        forall|j: int| 0 <= j < keys.len() ==> #[trigger] keys[j] != 0,
        0 <= i < keys.len(),
    ensures
        ({
            let b = before.objc.actions@;
            let a = after.objc.actions@;
            let n = keys.len();
            &&& a.len() == b.len() + 2 * n
            &&& a[b.len() + i] == Action::Retain(keys[i])
            &&& a[b.len() + n + i] == Action::Autorelease(keys[i])
            &&& a.take(b.len() as int) == b
        }),
        after.objc.dictionaries == before.objc.dictionaries,
        after.mem == before.mem,
{
    law_retain_all(keys, i);
    let b = before.objc.actions@;
    assert(after.objc.actions@.take(b.len() as int) =~= b);
    let more = retain_actions(keys) + autorelease_actions(keys);
    assert(more[i] == retain_actions(keys)[i]);
    assert(more[keys.len() + i] == autorelease_actions(keys)[i]);
}

/// Two dictionaries are gone over only where there is another and both have as
/// many pairs; it is the keys of the first that are taken.
pub proof fn law_compare_takes(before: Environment, after: Environment, this: id, other: id)
    requires
        keys_taken_to_compare(before, after, this, other),
    ensures
        ({
            let d = before.objc.dictionaries@[this].view();
            let e = before.objc.dictionaries@[other].view();
            &&& other == 0 || d.count != e.count ==> after == before
            &&& other != 0 && d.count == e.count ==> keys_taken(
                before,
                after,
                Seq::new(d.pairs().len(), |i: int| d.pairs()[i].0),
            )
        }),
{
    let d = before.objc.dictionaries@[this].view();
    assert(keys_of(d.pairs()) =~= Seq::new(d.pairs().len(), |i: int| d.pairs()[i].0));
}

/// While entries are added, or values set, each key is retained once, in order,
/// before anything is set.
pub proof fn law_keys_held(
    before: Environment,
    after: Environment,
    this: id,
    entries: Seq<Pair>,
    ns_null: id,
    i: int,
)
    requires
        forall|j: int| 0 <= j < entries.len() ==> (#[trigger] entries[j]).0 != 0,
        0 <= i < entries.len(),
    ensures
        entries_added(before, after, this, entries) ==> exists|held: Environment|
            {
                &&& #[trigger] entries_set(held, after, this, entries)
                &&& held.objc.actions@.len() == before.objc.actions@.len() + entries.len()
                &&& held.objc.actions@[before.objc.actions@.len() + i] == Action::Retain(
                    entries[i].0,
                )
                &&& held.objc.dictionaries == before.objc.dictionaries
            },
        values_given(before, after, this, entries, ns_null) ==> exists|held: Environment|
            {
                &&& #[trigger] values_set(held, after, this, entries, ns_null)
                &&& held.objc.actions@.len() == before.objc.actions@.len() + entries.len()
                &&& held.objc.actions@[before.objc.actions@.len() + i] == Action::Retain(
                    entries[i].0,
                )
                &&& held.objc.dictionaries == before.objc.dictionaries
            },
{
    let keys = keys_of(entries);
    assert(keys.len() == entries.len());
    assert forall|j: int| 0 <= j < keys.len() implies #[trigger] keys[j] != 0 by {
        assert(keys[j] == entries[j].0);
    }
    law_retain_all(keys, i);
    assert(keys[i] == entries[i].0);
    if entries_added(before, after, this, entries) {
        let held = choose|held: Environment|
            {
                &&& #[trigger] keys_held(before, held, entries)
                &&& entries_set(held, after, this, entries)
            };
        assert(entries_set(held, after, this, entries));
    }
    if values_given(before, after, this, entries, ns_null) {
        let held = choose|held: Environment|
            {
                &&& #[trigger] keys_held(before, held, entries)
                &&& values_set(held, after, this, entries, ns_null)
            };
        assert(values_set(held, after, this, entries, ns_null));
    }
}

/// The word that tells a block's wish to stop lies in a chunk of its own, and its
/// first byte, which alone is looked at, is zero.
pub proof fn law_stop_made(before: Mem, after: Mem, stop_ptr: u32)
    requires
        stop_made(before, after, stop_ptr),
    ensures
        after@[stop_ptr as int] == 0,
        after.allocated(stop_ptr as int),
        forall|i: int|
            0 <= i < before@.len() && i != stop_ptr ==> #[trigger] after@[i] == before@[i],
{
    let taken = choose|taken: Mem| #[trigger]
        taken.taken(before, stop_ptr, 4) && after.stored(taken, stop_ptr as int, seq![0u8]);
    assert(heap_size(4) >= 4);
    crate::heap::lemma_chunk_added(before, taken, stop_ptr, 4);
    assert(after.chunks == taken.chunks);
    let i = choose|i: int|
        0 <= i < taken.chunks@.len() && (#[trigger] taken.chunks@[i]).base == stop_ptr;
    assert(after.chunks@[i].base == stop_ptr);
}

} // verus!

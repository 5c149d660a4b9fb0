//! `NSDictionary` and `NSMutableDictionary`: the methods that go through whole
//! dictionaries.
use vstd::prelude::*;

use crate::environment::Environment;
use crate::frameworks::foundation::ns_dictionary::{
    dict_from_keys_and_objects, dictionary_made, keys_known, keys_of, keys_taken,
    lemma_same_answers,
    mutable_dict_from_keys_and_objects, object_for_key, object_removed_for_key, object_set_for_key,
    release_actions, remove_object_for_key, retain_actions, retain_all, set_object_for_key,
    set_value_for_key, take_keys, DictView, DictionaryHostObject, Pair,
};
use crate::mem::{le_u32, ConstVoidPtr, Mem, MutPtr};
use crate::objc::{id, nil, releases, retains, Action, GuestFunction, ObjC};

verus! {

broadcast use vstd::std_specs::hash::group_hash_axioms;

/// The contents of a dictionary.
pub open spec fn contents(env: Environment, this: id) -> DictView {
    env.objc.dictionaries@[this].view()
}

/// `- (id)init`: the dictionary is empty.
pub fn init(env: &mut Environment, this: id) -> (r: id)
    ensures
        r == this,
        ({
            let d = final(env).objc.dictionaries@[this];
            &&& *final(env) == old(env).with_objc(final(env).objc)
            &&& final(env).objc.dictionary_set(old(env).objc, this, d, Seq::empty())
            &&& d.view() == DictView::empty()
        }),
{
    let empty: DictionaryHostObject = DictionaryHostObject::new();
    let _ = env.objc.dictionaries.insert(this, empty);
    assert(env.objc.actions@ =~= old(env).objc.actions@ + Seq::<Action>::empty());
    this
}

/// `- (NSUInteger)count`
pub fn count(env: &Environment, this: id) -> (r: u32)
    requires
        env.objc.dictionaries@.contains_key(this),
    ensures
        r == contents(*env, this).count,
{
    env.objc.dictionaries.get(&this).unwrap().count
}

/// `- (id)valueForKey:(id)key`: operators are not known, so every key is looked
/// up.
pub fn value_for_key(env: &Environment, this: id, key: id) -> (r: id)
    requires
        env.objc.dictionaries@.contains_key(this),
        env.objc.hash_known(key),
    ensures
        r == contents(*env, this).value(env.objc, key),
{
    object_for_key(env, this, key)
}

/// A dictionary of some pairs was made, and is released later.
pub open spec fn dictionary_given(
    before: Environment,
    after: Environment,
    pairs: Seq<Pair>,
    r: id,
) -> bool {
    exists|made: Environment|
        {
            &&& #[trigger] dictionary_made(
                before,
                made,
                before.objc.classes.ns_dictionary,
                pairs,
                r,
            )
            &&& after == made.with_objc(after.objc)
            &&& after.objc.acted(made.objc, seq![Action::Autorelease(r)])
        }
}

/// `+ (id)dictionaryWithObject:(id)object forKey:(id)key`: empty for a null key.
pub fn dictionary_with_object_for_key(env: &mut Environment, object: id, key: id) -> (r: id)
    requires
        old(env).wf(),
        old(env).mem.has_room(4),
        key != nil ==> keys_known(old(env).objc, seq![(key, object)]),
    ensures
        final(env).wf(),
        dictionary_given(
            *old(env),
            *final(env),
            if key == nil {
                Seq::empty()
            } else {
                seq![(key, object)]
            },
            r,
        ),
{
    let mut pairs: Vec<Pair> = Vec::new();
    if key != nil {
        pairs.push((key, object));
    }
    assert(pairs@ =~= if key == nil {
        Seq::empty()
    } else {
        seq![(key, object)]
    });
    let dict: id = dict_from_keys_and_objects(env, &pairs);
    let ghost made = *env;
    env.objc.act(Action::Autorelease(dict));
    assert(dictionary_made(*old(env), made, old(env).objc.classes.ns_dictionary, pairs@, dict));
    dict
}

/// What an object answers to `isEqual:`; the null object answers no.
pub open spec fn answers_equal(objc: ObjC, receiver: id, argument: id) -> bool {
    receiver != nil && objc.is_equal(receiver, argument)
}

/// Two dictionaries have as many pairs, and each key of the first has values
/// that are equal.
pub open spec fn dictionaries_equal(objc: ObjC, d: DictView, e: DictView) -> bool {
    &&& d.count == e.count
    &&& forall|i: int|
        #![trigger d.pairs()[i]]
        0 <= i < d.pairs().len() ==> {
            let key = d.pairs()[i].0;
            answers_equal(objc, d.value(objc, key), e.value(objc, key))
        }
}

/// The keys answered to `hash`.
pub open spec fn hashes_known(objc: ObjC, d: DictView) -> bool {
    forall|i: int|
        #![trigger d.pairs()[i]]
        0 <= i < d.pairs().len() ==> objc.hash_known(d.pairs()[i].0)
}

/// What comparing two dictionaries does: where they have as many pairs, the keys
/// of the first are taken.
pub open spec fn keys_taken_to_compare(
    before: Environment,
    after: Environment,
    this: id,
    other: id,
) -> bool {
    if other != nil && contents(before, this).count == contents(before, other).count {
        keys_taken(before, after, keys_of(contents(before, this).pairs()))
    } else {
        after == before
    }
}

/// `- (BOOL)isEqualToDictionary:(NSDictionary *)other`
pub fn is_equal_to_dictionary(env: &mut Environment, this: id, other: id) -> (r: bool)
    requires
        old(env).objc.dictionaries@.contains_key(this),
        other == nil || old(env).objc.dictionaries@.contains_key(other),
        hashes_known(old(env).objc, contents(*old(env), this)),
    ensures
        r == (other != nil && dictionaries_equal(
            old(env).objc,
            contents(*old(env), this),
            contents(*old(env), other),
        )),
        keys_taken_to_compare(*old(env), *final(env), this, other),
{
    if other == nil {
        return false;
    }
    if count(env, this) != count(env, other) {
        return false;
    }
    let keys: Vec<id> = take_keys(env, this);
    let ghost d = contents(*old(env), this);
    let ghost e = contents(*old(env), other);
    let ghost objc = old(env).objc;
    let n: usize = keys.len();
    let mut i: usize = 0;
    while i < n
        invariant
            i <= n == keys@.len(),
            env.objc == (ObjC { actions: env.objc.actions, ..objc }),
            d == objc.dictionaries@[this].view(),
            e == objc.dictionaries@[other].view(),
            objc.dictionaries@.contains_key(this),
            objc.dictionaries@.contains_key(other),
            keys@ == keys_of(d.pairs()),
            hashes_known(objc, d),
            keys_taken(*old(env), *env, keys@),
            d.count == e.count,
            d == contents(*old(env), this),
            e == contents(*old(env), other),
            objc == old(env).objc,
            other != nil,
            forall|j: int|
                #![trigger d.pairs()[j]]
                0 <= j < i ==> answers_equal(
                    objc,
                    d.value(objc, d.pairs()[j].0),
                    e.value(objc, d.pairs()[j].0),
                ),
        decreases n - i,
    {
        let key: id = keys[i];
        assert(key == d.pairs()[i as int].0);
        proof {
            lemma_same_answers(objc, env.objc, d, key);
            lemma_same_answers(objc, env.objc, e, key);
        }
        let value: id = object_for_key(env, this, key);
        let other_value: id = object_for_key(env, other, key);
        if value == nil || !env.objc.check_equal(value, other_value) {
            return false;
        }
        i = i + 1;
    }
    true
}

/// `- (BOOL)isEqual:(id)other`, with whether the other object is a dictionary.
pub fn is_equal(env: &mut Environment, this: id, other: id, other_is_dictionary: bool) -> (r: bool)
    requires
        old(env).objc.dictionaries@.contains_key(this),
        this != other && other_is_dictionary ==> other == nil
            || old(env).objc.dictionaries@.contains_key(other),
        hashes_known(old(env).objc, contents(*old(env), this)),
    ensures
        r == (this == other || (other_is_dictionary && other != nil && dictionaries_equal(
            old(env).objc,
            contents(*old(env), this),
            contents(*old(env), other),
        ))),
        if this != other && other_is_dictionary {
            keys_taken_to_compare(*old(env), *final(env), this, other)
        } else {
            *final(env) == *old(env)
        },
{
    if this == other {
        return true;
    }
    if !other_is_dictionary {
        return false;
    }
    is_equal_to_dictionary(env, this, other)
}

/// The keys whose values an object equals, in the order of the pairs.
pub open spec fn matching_keys(objc: ObjC, pairs: Seq<Pair>, obj: id) -> Seq<id>
    decreases pairs.len(),
{
    if pairs.len() == 0 {
        Seq::empty()
    } else {
        let front = matching_keys(objc, pairs.drop_last(), obj);
        if answers_equal(objc, obj, pairs.last().1) {
            front.push(pairs.last().0)
        } else {
            front
        }
    }
}

/// `- (NSArray *)allKeysForObject:(id)obj`: the keys, which are then added to an
/// array of the guest.
pub fn all_keys_for_object(env: &Environment, this: id, obj: id) -> (r: Vec<id>)
    requires
        env.objc.dictionaries@.contains_key(this),
    ensures
        r@ == matching_keys(env.objc, contents(*env, this).pairs(), obj),
{
    let pairs: Vec<Pair> = env.objc.dictionaries.get(&this).unwrap().all_pairs();
    let mut keys: Vec<id> = Vec::new();
    let n: usize = pairs.len();
    let mut i: usize = 0;
    assert(pairs@.take(0) =~= Seq::empty());
    while i < n
        invariant
            i <= n == pairs@.len(),
            keys@ == matching_keys(env.objc, pairs@.take(i as int), obj),
        decreases n - i,
    {
        proof {
            assert(pairs@.take(i + 1).drop_last() =~= pairs@.take(i as int));
        }
        let (key, value): Pair = pairs[i];
        if obj != nil && env.objc.check_equal(obj, value) {
            keys.push(key);
        }
        i = i + 1;
    }
    assert(pairs@.take(n as int) =~= pairs@);
    keys
}

/// The dictionary can be given `n` more values.
pub open spec fn can_grow(env: Environment, this: id, n: int) -> bool {
    &&& env.objc.dictionaries@.contains_key(this)
    &&& contents(env, this).wf()
    &&& contents(env, this).count + n <= u32::MAX
}

/// The keys answered to `copy` and `hash`, and their copies to `hash`.
pub open spec fn entries_known(objc: ObjC, entries: Seq<Pair>) -> bool {
    forall|i: int|
        #![trigger entries[i]]
        0 <= i < entries.len() && entries[i].0 != nil ==> {
            &&& objc.copy_known(entries[i].0)
            &&& objc.hash_known(objc.copy_of(entries[i].0))
            &&& objc.hash_known(entries[i].0)
        }
}

/// The objects answer as they did.
pub open spec fn answers_kept(before: ObjC, after: ObjC) -> bool {
    after == (ObjC { actions: after.actions, dictionaries: after.dictionaries, ..before })
}

/// A key that was retained before is released.
pub open spec fn key_released(before: Environment, after: Environment, key: id) -> bool {
    &&& after == before.with_objc(after.objc)
    &&& after.objc.acted(before.objc, releases(key))
}

/// A key was given a value, and then released. An entry without a value changes
/// nothing.
pub open spec fn entry_set(before: Environment, after: Environment, this: id, entry: Pair) -> bool {
    exists|set: Environment| #[trigger]
        object_set_for_key(before, set, this, entry.1, entry.0) && key_released(
            set,
            after,
            entry.0,
        )
}

/// One entry was set after the other, through the states of `trace`.
pub open spec fn entry_steps(trace: Seq<Environment>, this: id, entries: Seq<Pair>) -> bool {
    &&& trace.len() == entries.len() + 1
    &&& forall|i: int|
        #![trigger entries[i]]
        0 <= i < entries.len() ==> entry_set(trace[i], trace[i + 1], this, entries[i])
}

/// Each key was given its value, in order, and then released.
pub open spec fn entries_set(
    before: Environment,
    after: Environment,
    this: id,
    entries: Seq<Pair>,
) -> bool {
    exists|trace: Seq<Environment>| #[trigger]
        entry_steps(trace, this, entries) && trace[0] == before && trace.last() == after
}

/// Every key was retained, and then the entries were set.
pub open spec fn entries_added(
    before: Environment,
    after: Environment,
    this: id,
    entries: Seq<Pair>,
) -> bool {
    exists|held: Environment|
        {
            &&& #[trigger] keys_held(before, held, entries)
            &&& entries_set(held, after, this, entries)
        }
}

/// Every key was retained.
pub open spec fn keys_held(before: Environment, after: Environment, entries: Seq<Pair>) -> bool {
    &&& after == before.with_objc(after.objc)
    &&& after.objc.acted(before.objc, retain_actions(keys_of(entries)))
}

/// Retains every key.
fn hold_keys(env: &mut Environment, entries: &Vec<Pair>)
    ensures
        keys_held(*old(env), *final(env), entries@),
{
    let mut keys: Vec<id> = Vec::new();
    let n: usize = entries.len();
    let mut i: usize = 0;
    while i < n
        invariant
            i <= n == entries@.len(),
            keys@ =~= keys_of(entries@.take(i as int)),
        decreases n - i,
    {
        keys.push(entries[i].0);
        i = i + 1;
    }
    assert(entries@.take(n as int) =~= entries@);
    retain_all(env, &keys);
}

/// `- (void)addEntriesFromDictionary:(NSDictionary *)other`, with the entries
/// of the other dictionary, as its enumerator and its lookup give them.
pub fn add_entries_from_dictionary(env: &mut Environment, this: id, entries: &Vec<Pair>)
    requires
        can_grow(*old(env), this, entries@.len() as int),
        entries_known(old(env).objc, entries@),
    ensures
        entries_added(*old(env), *final(env), this, entries@),
{
    hold_keys(env, entries);
    let ghost held = *env;
    let ghost mut trace = seq![held];
    let n: usize = entries.len();
    let mut i: usize = 0;
    while i < n
        invariant
            i <= n == entries@.len(),
            entry_steps(trace, this, entries@.take(i as int)),
            trace[0] == held,
            trace.last() == *env,
            can_grow(*env, this, n - i),
            answers_kept(held.objc, env.objc),
            entries_known(held.objc, entries@),
        decreases n - i,
    {
        let ghost mid = *env;
        let (key, value): Pair = entries[i];
        assert(entries@[i as int] == (key, value));
        set_object_for_key(env, this, value, key);
        let ghost set = *env;
        env.objc.release(key);
        proof {
            assert(object_set_for_key(mid, set, this, value, key));
            assert(key_released(set, *env, key));
            assert(entry_set(mid, *env, this, entries@[i as int]));
            let now = entries@.take(i + 1);
            let longer = trace.push(*env);
            assert forall|j: int| #![trigger now[j]] 0 <= j < now.len() implies entry_set(
                longer[j],
                longer[j + 1],
                this,
                now[j],
            ) by {
                if j < i {
                    assert(entries@.take(i as int)[j] == now[j]);
                }
            }
            trace = longer;
        }
        i = i + 1;
    }
    assert(entries@.take(n as int) =~= entries@);
    assert(keys_held(*old(env), held, entries@));
}

/// A value of the null object of collections stands for none.
pub open spec fn unwrapped(value: id, ns_null: id) -> id {
    if value == ns_null {
        nil
    } else {
        value
    }
}

/// A key was given a value, or removed where the value is null.
pub open spec fn value_set(
    before: Environment,
    after: Environment,
    this: id,
    value: id,
    key: id,
) -> bool {
    if value == nil {
        object_removed_for_key(before, after, this, key)
    } else {
        object_set_for_key(before, after, this, value, key)
    }
}

/// A key was given a value or removed, and then released.
pub open spec fn entry_valued(
    before: Environment,
    after: Environment,
    this: id,
    entry: Pair,
    ns_null: id,
) -> bool {
    exists|set: Environment| #[trigger]
        value_set(before, set, this, unwrapped(entry.1, ns_null), entry.0) && key_released(
            set,
            after,
            entry.0,
        )
}

/// One entry was set after the other, through the states of `trace`.
pub open spec fn value_steps(
    trace: Seq<Environment>,
    this: id,
    entries: Seq<Pair>,
    ns_null: id,
) -> bool {
    &&& trace.len() == entries.len() + 1
    &&& forall|i: int|
        #![trigger entries[i]]
        0 <= i < entries.len() ==> entry_valued(trace[i], trace[i + 1], this, entries[i], ns_null)
}

/// Each key was given its value or removed, in order, and then released.
pub open spec fn values_set(
    before: Environment,
    after: Environment,
    this: id,
    entries: Seq<Pair>,
    ns_null: id,
) -> bool {
    exists|trace: Seq<Environment>| #[trigger]
        value_steps(trace, this, entries, ns_null) && trace[0] == before && trace.last() == after
}

/// Every key was retained, and then the values were set.
pub open spec fn values_given(
    before: Environment,
    after: Environment,
    this: id,
    entries: Seq<Pair>,
    ns_null: id,
) -> bool {
    exists|held: Environment|
        {
            &&& #[trigger] keys_held(before, held, entries)
            &&& values_set(held, after, this, entries, ns_null)
        }
}

/// `- (void)setValuesForKeysWithDictionary:(NSDictionary *)keyedValues`, with
/// the entries of that dictionary. The null object of collections stands for
/// no value.
pub fn set_values_for_keys_with_dictionary(
    env: &mut Environment,
    this: id,
    entries: &Vec<Pair>,
    ns_null: id,
)
    requires
        can_grow(*old(env), this, entries@.len() as int),
        entries_known(old(env).objc, entries@),
    ensures
        values_given(*old(env), *final(env), this, entries@, ns_null),
{
    hold_keys(env, entries);
    let ghost held = *env;
    let ghost mut trace = seq![held];
    let n: usize = entries.len();
    let mut i: usize = 0;
    while i < n
        invariant
            i <= n == entries@.len(),
            value_steps(trace, this, entries@.take(i as int), ns_null),
            trace[0] == held,
            trace.last() == *env,
            can_grow(*env, this, n - i),
            answers_kept(held.objc, env.objc),
            entries_known(held.objc, entries@),
        decreases n - i,
    {
        let ghost mid = *env;
        let (key, value): Pair = entries[i];
        assert(entries@[i as int] == (key, value));
        let arg: id = if value == ns_null {
            nil
        } else {
            value
        };
        set_value_for_key(env, this, arg, key);
        let ghost set = *env;
        env.objc.release(key);
        proof {
            assert(value_set(mid, set, this, unwrapped(value, ns_null), key));
            assert(key_released(set, *env, key));
            assert(entry_valued(mid, *env, this, entries@[i as int], ns_null));
            let now = entries@.take(i + 1);
            let longer = trace.push(*env);
            assert forall|j: int| #![trigger now[j]] 0 <= j < now.len() implies entry_valued(
                longer[j],
                longer[j + 1],
                this,
                now[j],
                ns_null,
            ) by {
                if j < i {
                    assert(entries@.take(i as int)[j] == now[j]);
                }
            }
            trace = longer;
        }
        i = i + 1;
    }
    assert(entries@.take(n as int) =~= entries@);
    assert(keys_held(*old(env), held, entries@));
}

/// One key was removed after the other, through the states of `trace`.
pub open spec fn remove_steps(trace: Seq<Environment>, this: id, keys: Seq<id>) -> bool {
    &&& trace.len() == keys.len() + 1
    &&& forall|i: int|
        #![trigger keys[i]]
        0 <= i < keys.len() ==> object_removed_for_key(trace[i], trace[i + 1], this, keys[i])
}

/// The keys were removed, in order.
pub open spec fn keys_removed(
    before: Environment,
    after: Environment,
    this: id,
    keys: Seq<id>,
) -> bool {
    exists|trace: Seq<Environment>| #[trigger]
        remove_steps(trace, this, keys) && trace[0] == before && trace.last() == after
}

/// `- (void)removeObjectsForKeys:(NSArray *)keyArray`, with the keys of the
/// array.
pub fn remove_objects_for_keys(env: &mut Environment, this: id, keys: &Vec<id>)
    requires
        can_grow(*old(env), this, 0),
        forall|i: int| 0 <= i < keys@.len() ==> old(env).objc.hash_known(#[trigger] keys@[i]),
    ensures
        keys_removed(*old(env), *final(env), this, keys@),
{
    let ghost mut trace = seq![*env];
    let n: usize = keys.len();
    let mut i: usize = 0;
    while i < n
        invariant
            i <= n == keys@.len(),
            remove_steps(trace, this, keys@.take(i as int)),
            trace[0] == *old(env),
            trace.last() == *env,
            can_grow(*env, this, 0),
            answers_kept(old(env).objc, env.objc),
            forall|j: int| 0 <= j < keys@.len() ==> old(env).objc.hash_known(#[trigger] keys@[j]),
        decreases n - i,
    {
        let ghost mid = *env;
        assert(old(env).objc.hash_known(keys@[i as int]));
        remove_object_for_key(env, this, keys[i]);
        proof {
            let now = keys@.take(i + 1);
            let longer = trace.push(*env);
            assert forall|j: int| #![trigger now[j]] 0 <= j < now.len() implies object_removed_for_key(
                longer[j],
                longer[j + 1],
                this,
                now[j],
            ) by {
                if j < i {
                    assert(keys@.take(i as int)[j] == now[j]);
                }
            }
            trace = longer;
        }
        i = i + 1;
    }
    assert(keys@.take(n as int) =~= keys@);
}

/// `- (id)copyWithZone:(NSZone *)zone` of an immutable dictionary: itself.
pub fn copy_with_zone(env: &mut Environment, this: id) -> (r: id)
    ensures
        r == this,
        *final(env) == old(env).with_objc(final(env).objc),
        final(env).objc.acted(old(env).objc, retains(this)),
{
    env.objc.retain(this);
    this
}

/// `- (id)copyWithZone:(NSZone *)zone` of a mutable dictionary: an immutable
/// one with the same pairs.
pub fn mutable_copy_to_immutable(env: &mut Environment, this: id) -> (r: id)
    requires
        old(env).wf(),
        old(env).mem.has_room(4),
        old(env).objc.dictionaries@.contains_key(this),
        keys_known(old(env).objc, contents(*old(env), this).pairs()),
        contents(*old(env), this).pairs().len() <= u32::MAX,
    ensures
        final(env).wf(),
        dictionary_made(
            *old(env),
            *final(env),
            old(env).objc.classes.ns_dictionary,
            contents(*old(env), this).pairs(),
            r,
        ),
{
    let pairs: Vec<Pair> = env.objc.dictionaries.get(&this).unwrap().all_pairs();
    dict_from_keys_and_objects(env, &pairs)
}

/// The pairs without those whose key or value is null.
pub open spec fn solid_pairs(pairs: Seq<Pair>) -> Seq<Pair>
    decreases pairs.len(),
{
    if pairs.len() == 0 {
        Seq::empty()
    } else if pairs.last().0 == nil || pairs.last().1 == nil {
        solid_pairs(pairs.drop_last())
    } else {
        solid_pairs(pairs.drop_last()).push(pairs.last())
    }
}

/// `- (id)mutableCopyWithZone:(NSZone *)zone`: a mutable dictionary with the
/// same pairs, as far as they can be set.
pub fn mutable_copy_with_zone(env: &mut Environment, this: id) -> (r: id)
    requires
        old(env).wf(),
        old(env).mem.has_room(4),
        old(env).objc.dictionaries@.contains_key(this),
        keys_known(old(env).objc, contents(*old(env), this).pairs()),
        contents(*old(env), this).pairs().len() <= u32::MAX,
    ensures
        final(env).wf(),
        dictionary_made(
            *old(env),
            *final(env),
            old(env).objc.classes.ns_mutable_dictionary,
            solid_pairs(contents(*old(env), this).pairs()),
            r,
        ),
{
    let pairs: Vec<Pair> = env.objc.dictionaries.get(&this).unwrap().all_pairs();
    let mut solid: Vec<Pair> = Vec::new();
    let n: usize = pairs.len();
    let mut i: usize = 0;
    assert(pairs@.take(0) =~= Seq::empty());
    while i < n
        invariant
            i <= n == pairs@.len(),
            solid@ == solid_pairs(pairs@.take(i as int)),
            solid@.len() <= i,
            keys_known(env.objc, pairs@),
            keys_known(env.objc, solid@),
        decreases n - i,
    {
        proof {
            assert(pairs@.take(i + 1).drop_last() =~= pairs@.take(i as int));
        }
        let pair: Pair = pairs[i];
        assert(pair == pairs@[i as int]);
        if pair.0 != nil && pair.1 != nil {
            solid.push(pair);
        }
        i = i + 1;
    }
    assert(pairs@.take(n as int) =~= pairs@);
    mutable_dict_from_keys_and_objects(env, &solid)
}

/// A dictionary is gone: its keys and values were released, and its memory was
/// freed.
pub open spec fn dictionary_dropped(before: Environment, after: Environment, this: id) -> bool {
    &&& after == before.with_mem(after.mem).with_objc(after.objc)
    &&& after.mem.released(before.mem, this)
    &&& exists|emptied: ObjC|
        {
            &&& #[trigger] contents_released(before.objc, emptied, this)
            &&& after.objc.forgot(emptied, this)
        }
}

/// The contents of a dictionary were released, and it has none any more.
pub open spec fn contents_released(before: ObjC, after: ObjC, this: id) -> bool {
    &&& after == (ObjC { actions: after.actions, dictionaries: after.dictionaries, ..before })
    &&& after.actions@ == before.actions@ + release_actions(
        before.dictionaries@[this].view().pairs(),
    )
    &&& after.dictionaries@ == before.dictionaries@.remove(this)
}

/// `- (void)dealloc`
pub fn dealloc(env: &mut Environment, this: id)
    requires
        old(env).wf(),
        old(env).objc.dictionaries@.contains_key(this),
        contents(*old(env), this).wf(),
        old(env).objc.has_host_object(this),
    ensures
        final(env).wf(),
        dictionary_dropped(*old(env), *final(env), this),
{
    let mut host: DictionaryHostObject = env.objc.dictionaries.remove(&this).unwrap();
    host.release(env);
    let ghost emptied = env.objc;
    assert(contents_released(old(env).objc, emptied, this));
    env.objc.dealloc_object(this, &mut env.mem);
}

/// A block that is called with each key and value.
pub struct BlockEnumeration {
    pub invoke: GuestFunction,
    pub block: ConstVoidPtr,
    /// Where the block says that it wants no more.
    pub stop_ptr: MutPtr,
    /// The keys as they were at the start.
    pub keys: Vec<id>,
    /// How many of them the block was called with.
    pub at: usize,
}

/// The function of a block.
pub open spec fn block_invoke(mem: Mem, block: int) -> int {
    if block == 0 {
        0
    } else {
        le_u32(mem@, block + 12)
    }
}

/// The word in which the block says that it wants no more was made: its first
/// byte is zero.
pub open spec fn stop_made(before: Mem, after: Mem, stop_ptr: u32) -> bool {
    exists|taken: Mem| #[trigger]
        taken.taken(before, stop_ptr, 4) && after.stored(taken, stop_ptr as int, seq![0u8])
}

/// The start of `enumerateKeysAndObjectsUsingBlock:`. A snapshot of the keys is
/// taken, since the block may change the dictionary: a key that it removes lives
/// on until the pool is drained. A null block, or one without a function, is not
/// called.
pub fn enumerate_begin(env: &mut Environment, this: id, block: ConstVoidPtr) -> (r: Option<
    BlockEnumeration,
>)
    requires
        old(env).wf(),
        old(env).objc.dictionaries@.contains_key(this),
        block != 0 ==> old(env).mem.valid(block as int, 16),
        block_invoke(old(env).mem, block as int) != 0 ==> old(env).mem.has_room(4),
    ensures
        final(env).wf(),
        if block_invoke(old(env).mem, block as int) == 0 {
            r is None && *final(env) == *old(env)
        } else {
            &&& r is Some
            &&& r->0.invoke == block_invoke(old(env).mem, block as int)
            &&& r->0.block == block
            &&& r->0.keys@ == keys_of(contents(*old(env), this).pairs())
            &&& r->0.at == 0
            &&& keys_taken(old(env).with_mem(final(env).mem), *final(env), r->0.keys@)
            &&& stop_made(old(env).mem, final(env).mem, r->0.stop_ptr)
        },
{
    if block == 0 {
        return None;
    }
    let invoke: u32 = env.mem.read_u32(block + 12);
    if invoke == 0 {
        return None;
    }
    let stop_ptr: u32 = env.mem.allocate(4);
    let ghost taken = env.mem;
    env.mem.write_u8(stop_ptr, 0);
    assert(taken.taken(old(env).mem, stop_ptr, 4));
    let keys: Vec<id> = take_keys(env, this);
    Some(BlockEnumeration { invoke, block, stop_ptr, keys, at: 0 })
}

/// The key and the value that the block is called with next, if there are any:
/// the value is looked up only then.
pub fn enumerate_next(env: &Environment, this: id, e: &BlockEnumeration) -> (r: Option<Pair>)
    requires
        env.objc.dictionaries@.contains_key(this),
        e.at < e.keys@.len() ==> env.objc.hash_known(e.keys@[e.at as int]),
    ensures
        r == if e.at < e.keys@.len() {
            Some(
                (
                    e.keys@[e.at as int],
                    contents(*env, this).value(env.objc, e.keys@[e.at as int]),
                ),
            )
        } else {
            None
        },
{
    if e.at >= e.keys.len() {
        return None;
    }
    let key: id = e.keys[e.at];
    Some((key, object_for_key(env, this, key)))
}

/// After the block was called: the enumeration goes on with the next key,
/// unless the block wants no more.
pub fn enumerate_called(env: &Environment, e: &mut BlockEnumeration) -> (r: bool)
    requires
        env.wf(),
        env.mem.valid(old(e).stop_ptr as int, 1),
        old(e).at < old(e).keys@.len(),
    ensures
        r == (env.mem@[old(e).stop_ptr as int] == 0),
        *final(e) == if r {
            BlockEnumeration { at: (old(e).at + 1) as usize, ..*old(e) }
        } else {
            *old(e)
        },
{
    let n: usize = e.keys.len();
    if env.mem.read_u8(e.stop_ptr) != 0 || e.at >= n {
        return false;
    }
    e.at = e.at + 1;
    true
}

/// The end of `enumerateKeysAndObjectsUsingBlock:`.
pub fn enumerate_end(env: &mut Environment, e: &BlockEnumeration)
    requires
        old(env).wf(),
    ensures
        final(env).wf(),
        *final(env) == old(env).with_mem(final(env).mem),
        final(env).mem.released(old(env).mem, e.stop_ptr),
{
    env.mem.free(e.stop_ptr);
}

} // verus!

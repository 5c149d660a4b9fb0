//! The `NSDictionary` class cluster, including `NSMutableDictionary`.
use vstd::prelude::*;

use crate::environment::Environment;
use crate::mem::{le_bytes, le_u32, ConstPtr, Mem};
use crate::objc::{id, nil, releases, retains, Action, GuestFunction, ObjC};

verus! {

/// Alias for the return type of the `hash` method of the `NSObject` protocol.
pub type Hash = u32;

/// A key and its value.
pub type Pair = (id, id);

/// The pairs whose keys have the same hash value.
pub struct Bucket {
    pub hash: Hash,
    pub pairs: Vec<Pair>,
}

/// The contents of a dictionary, and of a set. Keys hash and compare as they
/// answer themselves, so this is a hash map of its own: a bucket for each hash
/// value that a key ever had.
pub struct DictionaryHostObject {
    pub buckets: Vec<Bucket>,
    pub count: u32,
}

/// A bucket as a value.
pub open spec fn bucket_view(b: Bucket) -> (Hash, Seq<Pair>) {
    (b.hash, b.pairs@)
}

/// The contents of a dictionary as a value.
pub ghost struct DictView {
    pub buckets: Seq<(Hash, Seq<Pair>)>,
    pub count: int,
}

/// The bucket for a hash value, from the one numbered `from` on.
pub open spec fn bucket_index(
    buckets: Seq<(Hash, Seq<Pair>)>,
    hash: Hash,
    from: int,
) -> Option<int>
    decreases buckets.len() - from,
{
    if from < 0 || from >= buckets.len() {
        None
    } else if buckets[from].0 == hash {
        Some(from)
    } else {
        bucket_index(buckets, hash, from + 1)
    }
}

/// How keys are told apart.
pub open spec fn keys_match(objc: ObjC, candidate: id, key: id) -> bool {
    candidate == key || objc.is_equal(candidate, key)
}

/// The pair whose key is `key`, from the one numbered `from` on.
pub open spec fn pair_index(objc: ObjC, pairs: Seq<Pair>, key: id, from: int) -> Option<int>
    decreases pairs.len() - from,
{
    if from < 0 || from >= pairs.len() {
        None
    } else if keys_match(objc, pairs[from].0, key) {
        Some(from)
    } else {
        pair_index(objc, pairs, key, from + 1)
    }
}

impl DictView {
    pub open spec fn empty() -> DictView {
        DictView { buckets: Seq::empty(), count: 0 }
    }

    /// Where a key is: its bucket and its place there.
    pub open spec fn place(self, objc: ObjC, key: id) -> Option<(int, int)> {
        match bucket_index(self.buckets, objc.hash_of(key), 0) {
            None => None,
            Some(b) => match pair_index(objc, self.buckets[b].1, key, 0) {
                None => None,
                Some(i) => Some((b, i)),
            },
        }
    }

    /// The value of a key.
    pub open spec fn value(self, objc: ObjC, key: id) -> id {
        match self.place(objc, key) {
            None => nil,
            Some((b, i)) => self.buckets[b].1[i].1,
        }
    }

    /// The contents with `key`, which is owned already, given the value.
    pub open spec fn inserted(self, objc: ObjC, key: id, value: id) -> DictView {
        match bucket_index(self.buckets, objc.hash_of(key), 0) {
            None => DictView {
                buckets: self.buckets.push((objc.hash_of(key), seq![(key, value)])),
                count: self.count + 1,
            },
            Some(b) => {
                let pairs = self.buckets[b].1;
                match pair_index(objc, pairs, key, 0) {
                    Some(i) => DictView {
                        buckets: self.buckets.update(
                            b,
                            (self.buckets[b].0, pairs.update(i, (pairs[i].0, value))),
                        ),
                        ..self
                    },
                    None => DictView {
                        buckets: self.buckets.update(
                            b,
                            (self.buckets[b].0, pairs.push((key, value))),
                        ),
                        count: self.count + 1,
                    },
                }
            },
        }
    }

    /// The contents without `key`.
    pub open spec fn removed(self, objc: ObjC, key: id) -> DictView {
        match self.place(objc, key) {
            None => self,
            Some((b, i)) => DictView {
                buckets: self.buckets.update(
                    b,
                    (self.buckets[b].0, self.buckets[b].1.remove(i)),
                ),
                count: self.count - 1,
            },
        }
    }

    /// The pairs of the first `n` buckets, one bucket after the other.
    pub open spec fn pairs_before(self, n: int) -> Seq<Pair>
        decreases n,
    {
        if n <= 0 {
            Seq::empty()
        } else {
            self.pairs_before(n - 1) + self.buckets[n - 1].1
        }
    }

    /// All pairs.
    pub open spec fn pairs(self) -> Seq<Pair> {
        self.pairs_before(self.buckets.len() as int)
    }

    /// No two buckets are for the same hash value, and the count is that of the
    /// pairs.
    pub open spec fn wf(self) -> bool {
        &&& forall|i: int, j: int|
            #![trigger self.buckets[i], self.buckets[j]]
            0 <= i < j < self.buckets.len() ==> self.buckets[i].0 != self.buckets[j].0
        &&& self.count == self.pairs().len()
    }
}

proof fn lemma_pairs_before_same(a: DictView, b: DictView, n: int)
    requires
        n <= a.buckets.len(),
        n <= b.buckets.len(),
        forall|i: int| 0 <= i < n ==> (#[trigger] a.buckets[i]) == b.buckets[i],
    ensures
        a.pairs_before(n) == b.pairs_before(n),
    decreases n,
{
    if n > 0 {
        lemma_pairs_before_same(a, b, n - 1);
        assert(a.buckets[n - 1] == b.buckets[n - 1]);
    }
}

/// When one bucket changes, the number of pairs changes as that bucket does.
proof fn lemma_pairs_updated(a: DictView, b: DictView, k: int, n: int)
    requires
        0 <= k < a.buckets.len(),
        a.buckets.len() == b.buckets.len(),
        n <= a.buckets.len(),
        forall|i: int| 0 <= i < a.buckets.len() && i != k ==> (#[trigger] a.buckets[i]) == b.buckets[i],
    ensures
        b.pairs_before(n).len() == a.pairs_before(n).len() + (if k < n {
            b.buckets[k].1.len() - a.buckets[k].1.len()
        } else {
            0
        }),
    decreases n,
{
    if n > 0 {
        lemma_pairs_updated(a, b, k, n - 1);
        if n - 1 != k {
            assert(a.buckets[n - 1] == b.buckets[n - 1]);
        }
    }
}

pub proof fn lemma_bucket_index(buckets: Seq<(Hash, Seq<Pair>)>, hash: Hash, from: int)
    requires
        0 <= from,
    ensures
        match bucket_index(buckets, hash, from) {
            Some(b) => from <= b < buckets.len() && buckets[b].0 == hash,
            None => forall|i: int| from <= i < buckets.len() ==> (#[trigger] buckets[i]).0 != hash,
        },
    decreases buckets.len() - from,
{
    if from < buckets.len() && buckets[from].0 != hash {
        lemma_bucket_index(buckets, hash, from + 1);
    }
}

pub proof fn lemma_pair_index(objc: ObjC, pairs: Seq<Pair>, key: id, from: int)
    requires
        0 <= from,
    ensures
        match pair_index(objc, pairs, key, from) {
            Some(i) => from <= i < pairs.len() && keys_match(objc, pairs[i].0, key) && forall|j: int|
                from <= j < i ==> !keys_match(objc, (#[trigger] pairs[j]).0, key),
            None => forall|j: int|
                from <= j < pairs.len() ==> !keys_match(objc, (#[trigger] pairs[j]).0, key),
        },
    decreases pairs.len() - from,
{
    if from < pairs.len() && !keys_match(objc, pairs[from].0, key) {
        lemma_pair_index(objc, pairs, key, from + 1);
    }
}

pub proof fn lemma_pair_index_is(objc: ObjC, pairs: Seq<Pair>, key: id, from: int, k: int)
    requires
        0 <= from <= k <= pairs.len(),
        forall|j: int| from <= j < k ==> !keys_match(objc, (#[trigger] pairs[j]).0, key),
        k < pairs.len() ==> keys_match(objc, pairs[k].0, key),
    ensures
        pair_index(objc, pairs, key, from) == if k < pairs.len() {
            Some(k)
        } else {
            None
        },
    decreases k - from,
{
    if from < k {
        lemma_pair_index_is(objc, pairs, key, from + 1, k);
    }
}

pub proof fn lemma_bucket_index_is(buckets: Seq<(Hash, Seq<Pair>)>, hash: Hash, from: int, k: int)
    requires
        0 <= from <= k <= buckets.len(),
        forall|j: int| from <= j < k ==> (#[trigger] buckets[j]).0 != hash,
        k < buckets.len() ==> buckets[k].0 == hash,
    ensures
        bucket_index(buckets, hash, from) == if k < buckets.len() {
            Some(k)
        } else {
            None
        },
    decreases k - from,
{
    if from < k {
        lemma_bucket_index_is(buckets, hash, from + 1, k);
    }
}

/// Inserting keeps the contents in order.
pub proof fn lemma_inserted_wf(d: DictView, objc: ObjC, key: id, value: id)
    requires
        d.wf(),
    ensures
        d.inserted(objc, key, value).wf(),
{
    let e = d.inserted(objc, key, value);
    let h = objc.hash_of(key);
    lemma_bucket_index(d.buckets, h, 0);
    match bucket_index(d.buckets, h, 0) {
        None => {
            let n = d.buckets.len() as int;
            assert forall|i: int| 0 <= i < n implies (#[trigger] d.buckets[i]) == e.buckets[i] by {}
            lemma_pairs_before_same(d, e, n);
            assert(e.buckets[n] == (h, seq![(key, value)]));
            assert(e.pairs().len() == d.pairs().len() + 1);
        },
        Some(b) => {
            lemma_pairs_updated(d, e, b, d.buckets.len() as int);
            let pairs = d.buckets[b].1;
            lemma_pair_index(objc, pairs, key, 0);
        },
    }
    assert forall|i: int, j: int|
        #![trigger e.buckets[i], e.buckets[j]]
        0 <= i < j < e.buckets.len() implies e.buckets[i].0 != e.buckets[j].0 by {
        if j < d.buckets.len() {
            assert(d.buckets[i].0 != d.buckets[j].0);
        } else {
            assert(d.buckets[i].0 != h);
        }
    }
}

/// Removing keeps the contents in order.
pub proof fn lemma_removed_wf(d: DictView, objc: ObjC, key: id)
    requires
        d.wf(),
    ensures
        d.removed(objc, key).wf(),
{
    let e = d.removed(objc, key);
    lemma_bucket_index(d.buckets, objc.hash_of(key), 0);
    if let Some((b, i)) = d.place(objc, key) {
        lemma_pair_index(objc, d.buckets[b].1, key, 0);
        lemma_pairs_updated(d, e, b, d.buckets.len() as int);
        assert forall|i: int, j: int|
            #![trigger e.buckets[i], e.buckets[j]]
            0 <= i < j < e.buckets.len() implies e.buckets[i].0 != e.buckets[j].0 by {
            assert(d.buckets[i].0 != d.buckets[j].0);
        }
    }
}

/// A key that was inserted is looked up with the value that it was given.
pub proof fn law_insert_lookup(d: DictView, objc: ObjC, key: id, value: id)
    requires
        d.wf(),
    ensures
        d.inserted(objc, key, value).value(objc, key) == value,
{
    let e = d.inserted(objc, key, value);
    let h = objc.hash_of(key);
    lemma_bucket_index(d.buckets, h, 0);
    match bucket_index(d.buckets, h, 0) {
        None => {
            lemma_bucket_index_is(e.buckets, h, 0, d.buckets.len() as int);
            lemma_pair_index_is(objc, seq![(key, value)], key, 0, 0);
        },
        Some(b) => {
            let pairs = d.buckets[b].1;
            lemma_pair_index(objc, pairs, key, 0);
            lemma_first_bucket(d, h, b);
            lemma_bucket_index_is(e.buckets, h, 0, b);
            match pair_index(objc, pairs, key, 0) {
                Some(i) => {
                    lemma_pair_index_is(objc, e.buckets[b].1, key, 0, i);
                },
                None => {
                    lemma_pair_index_is(objc, e.buckets[b].1, key, 0, pairs.len() as int);
                },
            }
        },
    }
}

pub proof fn lemma_first_bucket(d: DictView, h: Hash, b: int)
    requires
        d.wf(),
        0 <= b < d.buckets.len(),
        d.buckets[b].0 == h,
    ensures
        forall|j: int| 0 <= j < d.buckets.len() && j != b ==> (#[trigger] d.buckets[j]).0 != h,
{
    assert forall|j: int|
        0 <= j < d.buckets.len() && j != b implies (#[trigger] d.buckets[j]).0 != h by {
        if j < b {
            assert(d.buckets[j].0 != d.buckets[b].0);
        } else {
            assert(d.buckets[b].0 != d.buckets[j].0);
        }
    }
}

/// The keys are told apart: they hash otherwise, or no key counts as equal to
/// both.
pub open spec fn keys_differ(objc: ObjC, key: id, other: id) -> bool {
    objc.hash_of(key) != objc.hash_of(other) || forall|candidate: id|
        !(#[trigger] keys_match(objc, candidate, key) && keys_match(objc, candidate, other))
}

/// Where a bucket that is looked at is the only one that changed, another key
/// is looked up as before.
proof fn lemma_other_bucket(d: DictView, e: DictView, objc: ObjC, h: Hash, other: id)
    requires
        d.wf(),
        objc.hash_of(other) != h,
        e.buckets.len() >= d.buckets.len(),
        forall|i: int|
            0 <= i < d.buckets.len() ==> (#[trigger] e.buckets[i]).0 == d.buckets[i].0 && (
            d.buckets[i].0 != h ==> e.buckets[i] == d.buckets[i]),
        forall|i: int|
            d.buckets.len() <= i < e.buckets.len() ==> (#[trigger] e.buckets[i]).0 == h,
    ensures
        e.value(objc, other) == d.value(objc, other),
{
    let g = objc.hash_of(other);
    lemma_bucket_index(d.buckets, g, 0);
    let k = match bucket_index(d.buckets, g, 0) {
        Some(b) => b,
        None => e.buckets.len() as int,
    };
    assert forall|j: int| 0 <= j < k implies (#[trigger] e.buckets[j]).0 != g by {
        if j < d.buckets.len() {
            if k < d.buckets.len() {
                lemma_first_bucket(d, g, k);
            }
            assert(d.buckets[j].0 != g);
        }
    }
    lemma_bucket_index_is(e.buckets, g, 0, k);
}

/// A key that is told apart is looked up as before an insertion.
pub proof fn law_insert_keeps_others(d: DictView, objc: ObjC, key: id, value: id, other: id)
    requires
        d.wf(),
        keys_differ(objc, key, other),
    ensures
        d.inserted(objc, key, value).value(objc, other) == d.value(objc, other),
{
    let e = d.inserted(objc, key, value);
    let h = objc.hash_of(key);
    lemma_bucket_index(d.buckets, h, 0);
    if objc.hash_of(other) != h {
        assert forall|i: int|
            0 <= i < d.buckets.len() implies (#[trigger] e.buckets[i]).0 == d.buckets[i].0 && (
        d.buckets[i].0 != h ==> e.buckets[i] == d.buckets[i]) by {}
        lemma_other_bucket(d, e, objc, h, other);
        return;
    }
    match bucket_index(d.buckets, h, 0) {
        None => {
            lemma_bucket_index_is(e.buckets, h, 0, d.buckets.len() as int);
            assert(keys_match(objc, key, key));
            lemma_pair_index_is(objc, seq![(key, value)], other, 0, 1);
        },
        Some(b) => {
            lemma_first_bucket(d, h, b);
            lemma_bucket_index_is(e.buckets, h, 0, b);
            lemma_insert_pair(objc, d.buckets[b].1, e.buckets[b].1, key, value, other);
        },
    }
}

/// In one bucket, a pair that is inserted does not change what is found of a
/// key that is told apart.
proof fn lemma_insert_pair(
    objc: ObjC,
    pairs: Seq<Pair>,
    after: Seq<Pair>,
    key: id,
    value: id,
    other: id,
)
    requires
        forall|candidate: id|
            !(#[trigger] keys_match(objc, candidate, key) && keys_match(objc, candidate, other)),
        after == match pair_index(objc, pairs, key, 0) {
            Some(i) => pairs.update(i, (pairs[i].0, value)),
            None => pairs.push((key, value)),
        },
    ensures
        match pair_index(objc, pairs, other, 0) {
            Some(k) => pair_index(objc, after, other, 0) == Some(k) && after[k].1 == pairs[k].1,
            None => pair_index(objc, after, other, 0) is None,
        },
{
    lemma_pair_index(objc, pairs, key, 0);
    lemma_pair_index(objc, pairs, other, 0);
    let k = match pair_index(objc, pairs, other, 0) {
        Some(k) => k,
        None => after.len() as int,
    };
    assert(keys_match(objc, key, key));
    assert forall|j: int| 0 <= j < k implies !keys_match(objc, (#[trigger] after[j]).0, other) by {
        if j < pairs.len() {
            assert(after[j].0 == pairs[j].0);
        }
    }
    if k < pairs.len() {
        assert(after[k].0 == pairs[k].0);
        if let Some(i) = pair_index(objc, pairs, key, 0) {
            assert(keys_match(objc, pairs[i].0, key));
            assert(i != k);
        }
    }
    lemma_pair_index_is(objc, after, other, 0, k);
}

/// A key that is told apart is looked up as before a removal.
pub proof fn law_remove_keeps_others(d: DictView, objc: ObjC, key: id, other: id)
    requires
        d.wf(),
        keys_differ(objc, key, other),
    ensures
        d.removed(objc, key).value(objc, other) == d.value(objc, other),
{
    let e = d.removed(objc, key);
    let h = objc.hash_of(key);
    lemma_bucket_index(d.buckets, h, 0);
    if let Some((b, i)) = d.place(objc, key) {
        let pairs = d.buckets[b].1;
        let after = e.buckets[b].1;
        lemma_pair_index(objc, pairs, key, 0);
        assert(after == pairs.remove(i));
        if objc.hash_of(other) != h {
            assert forall|j: int|
                0 <= j < d.buckets.len() implies (#[trigger] e.buckets[j]).0 == d.buckets[j].0 && (
            d.buckets[j].0 != h ==> e.buckets[j] == d.buckets[j]) by {}
            lemma_other_bucket(d, e, objc, h, other);
            return;
        }
        lemma_first_bucket(d, h, b);
        assert forall|j: int| 0 <= j < b implies (#[trigger] e.buckets[j]).0 != h by {
            assert(d.buckets[j].0 != h);
        }
        lemma_bucket_index_is(e.buckets, h, 0, b);
        lemma_pair_index(objc, pairs, other, 0);
        assert(keys_match(objc, pairs[i].0, key));
        let k = match pair_index(objc, pairs, other, 0) {
            Some(k) => if k < i {
                k
            } else {
                k - 1
            },
            None => after.len() as int,
        };
        assert forall|j: int| 0 <= j < k implies !keys_match(
            objc,
            (#[trigger] after[j]).0,
            other,
        ) by {
            if j < i {
                assert(after[j] == pairs[j]);
            } else {
                assert(after[j] == pairs[j + 1]);
            }
        }
        if k < after.len() {
            assert(after[k] == pairs[pair_index(objc, pairs, other, 0)->0]);
        }
        lemma_pair_index_is(objc, after, other, 0, k);
    }
}

/// A key that was removed is looked up as null, where no other key in the
/// dictionary counts as equal to it.
pub proof fn law_remove_lookup(d: DictView, objc: ObjC, key: id)
    requires
        d.wf(),
        d.place(objc, key) matches Some((b, i)) ==> forall|j: int|
            0 <= j < d.buckets[b].1.len() && j != i ==> !keys_match(
                objc,
                (#[trigger] d.buckets[b].1[j]).0,
                key,
            ),
    ensures
        d.removed(objc, key).value(objc, key) == nil,
{
    let e = d.removed(objc, key);
    let h = objc.hash_of(key);
    lemma_bucket_index(d.buckets, h, 0);
    if let Some((b, i)) = d.place(objc, key) {
        let pairs = d.buckets[b].1;
        lemma_pair_index(objc, pairs, key, 0);
        lemma_first_bucket(d, h, b);
        assert forall|j: int| 0 <= j < b implies (#[trigger] e.buckets[j]).0 != h by {
            assert(d.buckets[j].0 != h);
        }
        lemma_bucket_index_is(e.buckets, h, 0, b);
        let rest = e.buckets[b].1;
        assert forall|j: int| 0 <= j < rest.len() implies !keys_match(
            objc,
            (#[trigger] rest[j]).0,
            key,
        ) by {
            if j < i {
                assert(rest[j] == pairs[j]);
            } else {
                assert(rest[j] == pairs[j + 1]);
            }
        }
        lemma_pair_index_is(objc, rest, key, 0, rest.len() as int);
    }
}

/// Each insertion adds one pair or replaces one, and each removal takes one
/// away or none.
pub proof fn law_counts(d: DictView, objc: ObjC, key: id, value: id)
    requires
        d.wf(),
    ensures
        d.inserted(objc, key, value).count == d.count + (if d.place(objc, key) is Some {
            0int
        } else {
            1
        }),
        d.removed(objc, key).count == d.count - (if d.place(objc, key) is Some {
            1int
        } else {
            0
        }),
{
}

impl DictionaryHostObject {
    pub open spec fn view(&self) -> DictView {
        DictView {
            buckets: Seq::new(self.buckets@.len(), |i: int| bucket_view(self.buckets@[i])),
            count: self.count as int,
        }
    }

    /// An empty dictionary.
    pub fn new() -> (r: DictionaryHostObject)
        ensures
            r.view() == DictView::empty(),
            r.view().wf(),
    {
        let r: DictionaryHostObject = DictionaryHostObject { buckets: Vec::new(), count: 0 };
        assert(r.view().buckets =~= Seq::empty());
        assert(r.view().pairs() =~= Seq::empty());
        r
    }

    fn find_bucket(&self, hash: Hash) -> (r: Option<usize>)
        ensures
            match bucket_index(self.view().buckets, hash, 0) {
                Some(b) => (r matches Some(i) && i == b) && 0 <= b < self.buckets@.len(),
                None => r is None,
            },
    {
        let n: usize = self.buckets.len();
        let mut i: usize = 0;
        while i < n
            invariant
                i <= n == self.buckets@.len(),
                bucket_index(self.view().buckets, hash, 0) == bucket_index(
                    self.view().buckets,
                    hash,
                    i as int,
                ),
            decreases n - i,
        {
            assert(self.view().buckets[i as int].0 == self.buckets@[i as int].hash);
            if self.buckets[i].hash == hash {
                return Some(i);
            }
            i = i + 1;
        }
        None
    }

    fn find_pair(objc: &ObjC, pairs: &Vec<Pair>, key: id) -> (r: Option<usize>)
        ensures
            match pair_index(*objc, pairs@, key, 0) {
                Some(k) => (r matches Some(i) && i == k) && 0 <= k < pairs@.len(),
                None => r is None,
            },
    {
        let n: usize = pairs.len();
        let mut i: usize = 0;
        while i < n
            invariant
                i <= n == pairs@.len(),
                pair_index(*objc, pairs@, key, 0) == pair_index(*objc, pairs@, key, i as int),
            decreases n - i,
        {
            let candidate: id = pairs[i].0;
            if candidate == key || objc.check_equal(candidate, key) {
                return Some(i);
            }
            i = i + 1;
        }
        None
    }

    /// The value of `key`, or null.
    pub fn lookup(&self, env: &Environment, key: id) -> (r: id)
        requires
            env.objc.hash_known(key),
        ensures
            r == self.view().value(env.objc, key),
    {
        let hash: Hash = env.objc.get_hash(key);
        match self.find_bucket(hash) {
            None => nil,
            Some(b) => match DictionaryHostObject::find_pair(
                &env.objc,
                &self.buckets[b].pairs,
                key,
            ) {
                None => nil,
                Some(i) => self.buckets[b].pairs[i].1,
            },
        }
    }

    /// Gives `key`, or a copy of it, the value `value`. Key and value are
    /// owned by the dictionary from then on, and a value that is replaced is
    /// released.
    pub fn insert(&mut self, env: &mut Environment, key: id, value: id, copy_key: bool)
        requires
            old(self).view().wf(),
            old(self).count < u32::MAX,
            copy_key ==> old(env).objc.copy_known(key),
            old(env).objc.hash_known(owned_key(old(env).objc, key, copy_key)),
        ensures
            ({
                let k = owned_key(old(env).objc, key, copy_key);
                &&& final(self).view() == old(self).view().inserted(old(env).objc, k, value)
                &&& final(self).view().wf()
                &&& *final(env) == old(env).with_objc(final(env).objc)
                &&& final(env).objc.acted(
                    old(env).objc,
                    insert_actions(old(self).view(), old(env).objc, key, value, copy_key),
                )
            }),
    {
        let ghost d = self.view();
        let ghost objc = env.objc;
        let owned: id = if copy_key {
            env.objc.get_copy(key)
        } else {
            if key != nil {
                env.objc.act(Action::Retain(key));
            }
            key
        };
        let ghost mid = env.objc;
        assert(mid.actions@ =~= objc.actions@ + (if copy_key {
            Seq::empty()
        } else {
            retains(key)
        }));
        let hash: Hash = env.objc.get_hash(owned);
        if value != nil {
            env.objc.act(Action::Retain(value));
        }
        let ghost kept = env.objc;
        assert(kept.actions@ =~= mid.actions@ + retains(value));
        proof {
            lemma_inserted_wf(d, objc, owned, value);
            lemma_same_answers(objc, kept, d, owned);
        }
        match self.find_bucket(hash) {
            None => {
                let pairs: Vec<Pair> = vec![(owned, value)];
                assert(pairs@ =~= seq![(owned, value)]);
                self.buckets.push(Bucket { hash, pairs });
                self.count = self.count + 1;
                assert(self.view().buckets =~= d.buckets.push((hash, seq![(owned, value)])));
            },
            Some(b) => {
                assert(d.buckets[b as int].1 == self.buckets@[b as int].pairs@);
                match DictionaryHostObject::find_pair(&env.objc, &self.buckets[b].pairs, owned) {
                    Some(i) => {
                        let existing: Pair = self.buckets[b].pairs[i];
                        if existing.1 != nil {
                            env.objc.act(Action::Release(existing.1));
                        }
                        self.buckets[b].pairs[i] = (existing.0, value);
                        assert(self.view().buckets =~= d.inserted(objc, owned, value).buckets);
                    },
                    None => {
                        self.buckets[b].pairs.push((owned, value));
                        self.count = self.count + 1;
                        assert(self.view().buckets =~= d.inserted(objc, owned, value).buckets);
                    },
                }
            },
        }
        assert(env.objc.actions@ =~= objc.actions@ + insert_actions(
            d,
            objc,
            key,
            value,
            copy_key,
        ));
    }

    /// Takes `key` out; the key and its value are released.
    pub fn remove(&mut self, env: &mut Environment, key: id)
        requires
            old(self).view().wf(),
            old(env).objc.hash_known(key),
        ensures
            final(self).view() == old(self).view().removed(old(env).objc, key),
            final(self).view().wf(),
            *final(env) == old(env).with_objc(final(env).objc),
            final(env).objc.acted(
                old(env).objc,
                remove_actions(old(self).view(), old(env).objc, key),
            ),
    {
        let ghost d = self.view();
        let ghost objc = env.objc;
        proof {
            lemma_removed_wf(d, objc, key);
            assert(objc.actions@ + Seq::<Action>::empty() =~= objc.actions@);
        }
        let hash: Hash = env.objc.get_hash(key);
        if let Some(b) = self.find_bucket(hash) {
            assert(d.buckets[b as int].1 == self.buckets@[b as int].pairs@);
            if let Some(i) = DictionaryHostObject::find_pair(
                &env.objc,
                &self.buckets[b].pairs,
                key,
            ) {
                let existing: Pair = self.buckets[b].pairs[i];
                if existing.0 != nil {
                    env.objc.act(Action::Release(existing.0));
                }
                if existing.1 != nil {
                    env.objc.act(Action::Release(existing.1));
                }
                proof {
                    assert(env.objc.actions@ =~= objc.actions@ + (releases(existing.0) + releases(
                        existing.1,
                    )));
                    lemma_pairs_split(d, b as int, d.buckets.len() as int);
                    assert(d.count > 0);
                }
                let _ = self.buckets[b].pairs.remove(i);
                self.count = self.count - 1;
                assert(self.view().buckets =~= d.removed(objc, key).buckets);
            }
        }
    }

    /// Releases every key and value.
    pub fn release(&mut self, env: &mut Environment)
        requires
            old(self).view().wf(),
        ensures
            *final(self) == *old(self),
            *final(env) == old(env).with_objc(final(env).objc),
            final(env).objc.acted(old(env).objc, release_actions(old(self).view().pairs())),
    {
        let pairs: Vec<Pair> = self.all_pairs();
        let n: usize = pairs.len();
        let mut i: usize = 0;
        let ghost objc = env.objc;
        assert(pairs@.take(0) =~= Seq::empty());
        assert(objc.actions@ + Seq::<Action>::empty() =~= objc.actions@);
        while i < n
            invariant
                i <= n == pairs@.len(),
                *env == old(env).with_objc(env.objc),
                objc == old(env).objc,
                env.objc.acted(objc, release_actions(pairs@.take(i as int))),
            decreases n - i,
        {
            let ghost before = env.objc;
            let pair: Pair = pairs[i];
            if pair.0 != nil {
                env.objc.act(Action::Release(pair.0));
            }
            if pair.1 != nil {
                env.objc.act(Action::Release(pair.1));
            }
            proof {
                assert(pairs@.take(i + 1).drop_last() =~= pairs@.take(i as int));
                assert(env.objc.actions@ =~= before.actions@ + (releases(pair.0) + releases(
                    pair.1,
                )));
                assert(env.objc.actions@ =~= objc.actions@ + release_actions(
                    pairs@.take(i + 1),
                ));
            }
            i = i + 1;
        }
        assert(pairs@.take(n as int) =~= pairs@);
    }

    /// Every pair, one bucket after the other.
    pub fn all_pairs(&self) -> (r: Vec<Pair>)
        ensures
            r@ == self.view().pairs(),
    {
        let mut r: Vec<Pair> = Vec::new();
        let n: usize = self.buckets.len();
        let mut i: usize = 0;
        while i < n
            invariant
                i <= n == self.buckets@.len(),
                r@ == self.view().pairs_before(i as int),
            decreases n - i,
        {
            let mut more: Vec<Pair> = clone_pairs(&self.buckets[i].pairs);
            let ghost before = r@;
            let ghost added = more@;
            r.append(&mut more);
            assert(r@ =~= before + added);
            assert(self.view().buckets[i as int].1 == self.buckets@[i as int].pairs@);
            i = i + 1;
        }
        r
    }

    /// Every key, one bucket after the other.
    pub fn iter_keys(&self) -> (r: Vec<id>)
        ensures
            r@ == keys_of(self.view().pairs()),
    {
        let pairs: Vec<Pair> = self.all_pairs();
        let mut r: Vec<id> = Vec::new();
        let n: usize = pairs.len();
        let mut i: usize = 0;
        while i < n
            invariant
                i <= n == pairs@.len(),
                r@.len() == i,
                forall|k: int| 0 <= k < i ==> (#[trigger] r@[k]) == pairs@[k].0,
            decreases n - i,
        {
            r.push(pairs[i].0);
            i = i + 1;
        }
        assert(r@ =~= keys_of(pairs@));
        r
    }

    /// Every value, one bucket after the other.
    pub fn iter_values(&self) -> (r: Vec<id>)
        ensures
            r@ == values_of(self.view().pairs()),
    {
        let pairs: Vec<Pair> = self.all_pairs();
        let mut r: Vec<id> = Vec::new();
        let n: usize = pairs.len();
        let mut i: usize = 0;
        while i < n
            invariant
                i <= n == pairs@.len(),
                r@.len() == i,
                forall|k: int| 0 <= k < i ==> (#[trigger] r@[k]) == pairs@[k].1,
            decreases n - i,
        {
            r.push(pairs[i].1);
            i = i + 1;
        }
        assert(r@ =~= values_of(pairs@));
        r
    }
}

fn clone_pairs(pairs: &Vec<Pair>) -> (r: Vec<Pair>)
    ensures
        r@ == pairs@,
{
    let mut r: Vec<Pair> = Vec::new();
    let n: usize = pairs.len();
    let mut i: usize = 0;
    while i < n
        invariant
            i <= n == pairs@.len(),
            r@ =~= pairs@.take(i as int),
        decreases n - i,
    {
        r.push(pairs[i]);
        i = i + 1;
    }
    r
}

proof fn lemma_pairs_split(d: DictView, b: int, n: int)
    requires
        0 <= b < n <= d.buckets.len(),
    ensures
        d.pairs_before(n).len() >= d.buckets[b].1.len(),
    decreases n,
{
    if b < n - 1 {
        lemma_pairs_split(d, b, n - 1);
    }
}

/// More actions change no answer.
pub proof fn lemma_same_answers(a: ObjC, b: ObjC, d: DictView, key: id)
    requires
        b == (ObjC { actions: b.actions, ..a }),
    ensures
        b.hash_of(key) == a.hash_of(key),
        forall|pairs: Seq<Pair>, k: id, from: int|
            #![trigger pair_index(b, pairs, k, from)]
            0 <= from ==> pair_index(b, pairs, k, from) == pair_index(a, pairs, k, from),
{
    assert forall|pairs: Seq<Pair>, k: id, from: int|
        #![trigger pair_index(b, pairs, k, from)]
        0 <= from implies pair_index(b, pairs, k, from) == pair_index(a, pairs, k, from) by {
        lemma_same_pair_index(a, b, pairs, k, from);
    }
}

proof fn lemma_same_pair_index(a: ObjC, b: ObjC, pairs: Seq<Pair>, key: id, from: int)
    requires
        b == (ObjC { actions: b.actions, ..a }),
        0 <= from,
    ensures
        pair_index(b, pairs, key, from) == pair_index(a, pairs, key, from),
    decreases pairs.len() - from,
{
    if from < pairs.len() {
        lemma_same_pair_index(a, b, pairs, key, from + 1);
    }
}

/// The key that a dictionary owns: a copy, or the key itself.
pub open spec fn owned_key(objc: ObjC, key: id, copy_key: bool) -> id {
    if copy_key {
        objc.copy_of(key)
    } else {
        key
    }
}

/// What an insertion sends.
pub open spec fn insert_actions(
    d: DictView,
    objc: ObjC,
    key: id,
    value: id,
    copy_key: bool,
) -> Seq<Action> {
    (if copy_key {
        Seq::empty()
    } else {
        retains(key)
    }) + retains(value) + (match d.place(objc, owned_key(objc, key, copy_key)) {
        Some((b, i)) => releases(d.buckets[b].1[i].1),
        None => Seq::empty(),
    })
}

/// What a removal sends.
pub open spec fn remove_actions(d: DictView, objc: ObjC, key: id) -> Seq<Action> {
    match d.place(objc, key) {
        Some((b, i)) => releases(d.buckets[b].1[i].0) + releases(d.buckets[b].1[i].1),
        None => Seq::empty(),
    }
}

/// What releasing every key and value sends.
pub open spec fn release_actions(pairs: Seq<Pair>) -> Seq<Action>
    decreases pairs.len(),
{
    if pairs.len() == 0 {
        Seq::empty()
    } else {
        release_actions(pairs.drop_last()) + (releases(pairs.last().0) + releases(pairs.last().1))
    }
}

pub open spec fn keys_of(pairs: Seq<Pair>) -> Seq<id> {
    Seq::new(pairs.len(), |i: int| pairs[i].0)
}

pub open spec fn values_of(pairs: Seq<Pair>) -> Seq<id> {
    Seq::new(pairs.len(), |i: int| pairs[i].1)
}

/// A dictionary that was built from pairs, and what building it sent.
pub ghost struct Built {
    pub dict: DictView,
    pub actions: Seq<Action>,
}

/// The dictionary with the given pairs, inserted in order with copied keys.
pub open spec fn built(objc: ObjC, pairs: Seq<Pair>) -> Built
    decreases pairs.len(),
{
    if pairs.len() == 0 {
        Built { dict: DictView::empty(), actions: Seq::empty() }
    } else {
        let b = built(objc, pairs.drop_last());
        let (key, value) = pairs.last();
        Built {
            dict: b.dict.inserted(objc, objc.copy_of(key), value),
            actions: b.actions + insert_actions(b.dict, objc, key, value, true),
        }
    }
}

/// What the keys answer to `copy`, and the copies to `hash`, is known.
pub open spec fn keys_known(objc: ObjC, pairs: Seq<Pair>) -> bool {
    forall|i: int|
        #![trigger pairs[i]]
        0 <= i < pairs.len() ==> objc.copy_known(pairs[i].0) && objc.hash_known(
            objc.copy_of(pairs[i].0),
        )
}

proof fn lemma_same_inserted(a: ObjC, b: ObjC, d: DictView, key: id, value: id)
    requires
        b == (ObjC { actions: b.actions, ..a }),
    ensures
        d.inserted(b, key, value) == d.inserted(a, key, value),
        d.place(b, key) == d.place(a, key),
        d.value(b, key) == d.value(a, key),
        d.removed(b, key) == d.removed(a, key),
{
    lemma_same_answers(a, b, d, key);
    if let Some(k) = bucket_index(d.buckets, a.hash_of(key), 0) {
        assert(pair_index(b, d.buckets[k].1, key, 0) == pair_index(a, d.buckets[k].1, key, 0));
    }
}

proof fn lemma_built_count(objc: ObjC, pairs: Seq<Pair>)
    ensures
        0 <= built(objc, pairs).dict.count <= pairs.len(),
    decreases pairs.len(),
{
    if pairs.len() > 0 {
        lemma_built_count(objc, pairs.drop_last());
    }
}

/// Builds a dictionary from pairs.
fn build(env: &mut Environment, pairs: &Vec<Pair>) -> (r: DictionaryHostObject)
    requires
        keys_known(old(env).objc, pairs@),
        pairs@.len() <= u32::MAX,
    ensures
        r.view() == built(old(env).objc, pairs@).dict,
        r.view().wf(),
        *final(env) == old(env).with_objc(final(env).objc),
        final(env).objc.acted(old(env).objc, built(old(env).objc, pairs@).actions),
{
    let mut host_object: DictionaryHostObject = DictionaryHostObject::new();
    let n: usize = pairs.len();
    let mut i: usize = 0;
    let ghost objc = env.objc;
    assert(pairs@.take(0) =~= Seq::empty());
    assert(objc.actions@ + Seq::<Action>::empty() =~= objc.actions@);
    while i < n
        invariant
            i <= n == pairs@.len() <= u32::MAX,
            objc == old(env).objc,
            keys_known(objc, pairs@),
            host_object.view() == built(objc, pairs@.take(i as int)).dict,
            host_object.view().wf(),
            *env == old(env).with_objc(env.objc),
            env.objc.acted(objc, built(objc, pairs@.take(i as int)).actions),
        decreases n - i,
    {
        let (key, value): Pair = pairs[i];
        let ghost d = host_object.view();
        let ghost before = env.objc;
        proof {
            lemma_built_count(objc, pairs@.take(i as int));
            lemma_same_inserted(objc, before, d, objc.copy_of(key), value);
            assert(pairs@[i as int] == (key, value));
        }
        host_object.insert(env, key, value, true);
        proof {
            let now = pairs@.take(i + 1);
            assert(now.drop_last() =~= pairs@.take(i as int));
            assert(now.last() == (key, value));
            assert(insert_actions(d, before, key, value, true) == insert_actions(
                d,
                objc,
                key,
                value,
                true,
            ));
            assert(env.objc.actions@ =~= objc.actions@ + built(objc, now).actions);
        }
        i = i + 1;
    }
    assert(pairs@.take(n as int) =~= pairs@);
    host_object
}

/// The dictionary `this` was given the given pairs.
pub open spec fn dictionary_built(
    before: Environment,
    after: Environment,
    this: id,
    pairs: Seq<Pair>,
) -> bool {
    let b = built(before.objc, pairs);
    let d = after.objc.dictionaries@[this];
    &&& after == before.with_objc(after.objc)
    &&& after.objc.dictionary_set(before.objc, this, d, b.actions)
    &&& d.view() == b.dict
    &&& d.view().wf()
}

/// Builds a dictionary from pairs, and makes it the contents of `this`.
fn build_into(env: &mut Environment, this: id, pairs: &Vec<Pair>)
    requires
        keys_known(old(env).objc, pairs@),
        pairs@.len() <= u32::MAX,
    ensures
        dictionary_built(*old(env), *final(env), this, pairs@),
{
    broadcast use vstd::std_specs::hash::group_hash_axioms;

    let host_object: DictionaryHostObject = build(env, pairs);
    let _ = env.objc.dictionaries.insert(this, host_object);
}

/// The pairs in a list of arguments, from the one numbered `from` on: values
/// and keys in turn, up to a null or the end.
pub open spec fn argument_pairs(args: Seq<id>, from: int) -> Seq<Pair>
    decreases args.len() - from,
{
    if from < 0 || from + 1 >= args.len() || args[from] == nil || args[from + 1] == nil {
        Seq::empty()
    } else {
        seq![(args[from + 1], args[from])] + argument_pairs(args, from + 2)
    }
}

/// The pairs of `initWithObjectsAndKeys:`, of which the first value stands
/// apart; without a first key there are none.
pub open spec fn objects_and_keys(first_object: id, args: Seq<id>) -> Seq<Pair> {
    if args.len() == 0 || args[0] == nil {
        Seq::empty()
    } else {
        seq![(args[0], first_object)] + argument_pairs(args, 1)
    }
}

/// Helper to enable sharing `dictionaryWithObjectsAndKeys:` and
/// `initWithObjectsAndKeys:`' implementations. `va_args` are the arguments after
/// the first object.
pub fn init_with_objects_and_keys(
    env: &mut Environment,
    this: id,
    first_object: id,
    va_args: &Vec<id>,
) -> (r: id)
    requires
        keys_known(old(env).objc, objects_and_keys(first_object, va_args@)),
        va_args@.len() < u32::MAX,
    ensures
        r == this,
        dictionary_built(
            *old(env),
            *final(env),
            this,
            objects_and_keys(first_object, va_args@),
        ),
{
    let mut pairs: Vec<Pair> = Vec::new();
    let n: usize = va_args.len();
    if n > 0 && va_args[0] != nil {
        pairs.push((va_args[0], first_object));
        let mut i: usize = 1;
        let ghost first = seq![(va_args@[0], first_object)];
        assert(pairs@ =~= first);
        while n - i >= 2 && va_args[i] != nil && va_args[i + 1] != nil
            invariant
                1 <= i <= n == va_args@.len() < u32::MAX,
                pairs@.len() <= i,
                first + argument_pairs(va_args@, 1) =~= pairs@ + argument_pairs(
                    va_args@,
                    i as int,
                ),
            decreases n - i,
        {
            let ghost before = pairs@;
            pairs.push((va_args[i + 1], va_args[i]));
            assert(before + argument_pairs(va_args@, i as int) =~= pairs@ + argument_pairs(
                va_args@,
                i + 2,
            ));
            i = i + 2;
        }
        assert(pairs@ + argument_pairs(va_args@, i as int) =~= pairs@);
    }
    assert(pairs@ =~= objects_and_keys(first_object, va_args@));
    build_into(env, this, &pairs);
    this
}

/// The pairs of a dictionary as they are copied: each key with the value that
/// is looked up for it.
pub open spec fn copied_pairs(objc: ObjC, d: DictView) -> Seq<Pair> {
    let keys = keys_of(d.pairs());
    Seq::new(keys.len(), |i: int| (keys[i], d.value(objc, keys[i])))
}

/// Helper function to share `initWithDictionary:` implementations
pub fn init_with_dictionary_common(env: &mut Environment, this: id, other_dict: id) -> (r: id)
    requires
        other_dict != nil ==> {
            &&& old(env).objc.dictionaries@.contains_key(other_dict)
            &&& ({
                let d = old(env).objc.dictionaries@[other_dict].view();
                &&& d.wf()
                &&& keys_known(old(env).objc, copied_pairs(old(env).objc, d))
                &&& forall|i: int|
                    0 <= i < d.pairs().len() ==> old(env).objc.hash_known(
                        (#[trigger] d.pairs()[i]).0,
                    )
            })
        },
    ensures
        r == this,
        ({
            let pairs = if other_dict == nil {
                Seq::empty()
            } else {
                copied_pairs(old(env).objc, old(env).objc.dictionaries@[other_dict].view())
            };
            if other_dict == this && other_dict != nil {
                &&& *final(env) == old(env).with_objc(final(env).objc)
                &&& final(env).objc.acted(old(env).objc, built(old(env).objc, pairs).actions)
            } else {
                dictionary_built(*old(env), *final(env), this, pairs)
            }
        }),
{
    broadcast use vstd::std_specs::hash::group_hash_axioms;

    let mut pairs: Vec<Pair> = Vec::new();
    if other_dict != nil {
        match env.objc.dictionaries.get(&other_dict) {
            Some(other) => {
                let keys: Vec<id> = other.iter_keys();
                let n: usize = keys.len();
                let ghost d = other.view();
                let mut i: usize = 0;
                while i < n
                    invariant
                        i <= n == keys@.len(),
                        keys@ == keys_of(d.pairs()),
                        d == other.view(),
                        pairs@ =~= copied_pairs(env.objc, d).take(i as int),
                        forall|i: int|
                            0 <= i < d.pairs().len() ==> env.objc.hash_known(
                                (#[trigger] d.pairs()[i]).0,
                            ),
                    decreases n - i,
                {
                    let key: id = keys[i];
                    assert(d.pairs()[i as int].0 == key);
                    let object: id = other.lookup(env, key);
                    pairs.push((key, object));
                    i = i + 1;
                }
                proof {
                    assert(d.count <= u32::MAX);
                    assert(pairs@ =~= copied_pairs(env.objc, d));
                }
            },
            None => {},
        }
    } else {
        assert(pairs@ =~= Seq::empty());
    }
    if other_dict == this && other_dict != nil {
        // A dictionary keeps its own contents.
        let _ = build(env, &pairs);
        return this;
    }
    build_into(env, this, &pairs);
    this
}

/// Keys and objects of two arrays, side by side, up to the end of one of them
/// or a null.
pub open spec fn zipped(objects: Seq<id>, keys: Seq<id>, from: int) -> Seq<Pair>
    decreases keys.len() - from,
{
    if from < 0 || from >= keys.len() || from >= objects.len() || keys[from] == nil
        || objects[from] == nil {
        Seq::empty()
    } else {
        seq![(keys[from], objects[from])] + zipped(objects, keys, from + 1)
    }
}

/// Helper function so share `initWithObjects:ForKeys:` implementations, for the
/// contents of two arrays.
pub fn init_with_objects_for_keys_common(
    env: &mut Environment,
    this: id,
    objects: &Vec<id>,
    keys: &Vec<id>,
) -> (r: id)
    requires
        keys_known(old(env).objc, zipped(objects@, keys@, 0)),
        keys@.len() <= u32::MAX,
    ensures
        r == this,
        dictionary_built(*old(env), *final(env), this, zipped(objects@, keys@, 0)),
{
    let mut pairs: Vec<Pair> = Vec::new();
    let mut i: usize = 0;
    while i < keys.len() && i < objects.len() && keys[i] != nil && objects[i] != nil
        invariant
            i <= keys@.len() <= u32::MAX,
            i <= objects@.len(),
            pairs@.len() == i,
            zipped(objects@, keys@, 0) =~= pairs@ + zipped(objects@, keys@, i as int),
        decreases keys@.len() - i,
    {
        let ghost before = pairs@;
        pairs.push((keys[i], objects[i]));
        assert(before + zipped(objects@, keys@, i as int) =~= pairs@ + zipped(
            objects@,
            keys@,
            i + 1,
        ));
        i = i + 1;
    }
    assert(pairs@ =~= zipped(objects@, keys@, 0));
    build_into(env, this, &pairs);
    this
}

/// The first `n` keys and objects of two guest arrays, without those whose key
/// is null.
pub open spec fn guest_pairs(mem: Mem, objects: int, keys: int, n: int) -> Seq<Pair>
    decreases n,
{
    if n <= 0 {
        Seq::empty()
    } else {
        let front = guest_pairs(mem, objects, keys, n - 1);
        let key = le_u32(mem@, keys + 4 * (n - 1)) as u32;
        let object = le_u32(mem@, objects + 4 * (n - 1)) as u32;
        if key == nil {
            front
        } else {
            front.push((key, object))
        }
    }
}

/// Helper function for initWithObjects:forKeys:count: implementation
pub fn init_with_objects_for_keys_count_common(
    env: &mut Environment,
    this: id,
    objects: ConstPtr,
    keys: ConstPtr,
    count: u32,
) -> (r: id)
    requires
        old(env).wf(),
        count > 0 ==> old(env).mem.valid(objects as int, 4 * count) && old(env).mem.valid(
            keys as int,
            4 * count,
        ),
        keys_known(
            old(env).objc,
            guest_pairs(old(env).mem, objects as int, keys as int, count as int),
        ),
    ensures
        r == this,
        dictionary_built(
            *old(env),
            *final(env),
            this,
            guest_pairs(old(env).mem, objects as int, keys as int, count as int),
        ),
{
    let mut pairs: Vec<Pair> = Vec::new();
    let mut i: u32 = 0;
    while i < count
        invariant
            i <= count,
            env.mem.wf(),
            count > 0 ==> env.mem.valid(objects as int, 4 * count) && env.mem.valid(
                keys as int,
                4 * count,
            ),
            pairs@ == guest_pairs(env.mem, objects as int, keys as int, i as int),
            pairs@.len() <= i,
        decreases count - i,
    {
        let key: id = env.mem.read_u32(keys + 4 * i);
        let object: id = env.mem.read_u32(objects + 4 * i);
        if key != nil {
            pairs.push((key, object));
        }
        i = i + 1;
    }
    build_into(env, this, &pairs);
    this
}

/// What retaining objects sends.
pub open spec fn retain_actions(objects: Seq<id>) -> Seq<Action>
    decreases objects.len(),
{
    if objects.len() == 0 {
        Seq::empty()
    } else {
        retain_actions(objects.drop_last()) + retains(objects.last())
    }
}

pub fn retain_all(env: &mut Environment, objects: &Vec<id>)
    ensures
        *final(env) == old(env).with_objc(final(env).objc),
        final(env).objc.acted(old(env).objc, retain_actions(objects@)),
{
    let n: usize = objects.len();
    let mut i: usize = 0;
    let ghost objc = env.objc;
    assert(objects@.take(0) =~= Seq::empty());
    assert(objc.actions@ + Seq::<Action>::empty() =~= objc.actions@);
    while i < n
        invariant
            i <= n == objects@.len(),
            objc == old(env).objc,
            *env == old(env).with_objc(env.objc),
            env.objc.acted(objc, retain_actions(objects@.take(i as int))),
        decreases n - i,
    {
        let ghost before = env.objc;
        if objects[i] != nil {
            env.objc.act(Action::Retain(objects[i]));
        }
        proof {
            assert(objects@.take(i + 1).drop_last() =~= objects@.take(i as int));
            assert(env.objc.actions@ =~= before.actions@ + retains(objects@[i as int]));
            assert(env.objc.actions@ =~= objc.actions@ + retain_actions(objects@.take(i + 1)));
        }
        i = i + 1;
    }
    assert(objects@.take(n as int) =~= objects@);
}

/// Helper function to share `allKeys` implementations: the keys, retained for
/// the array that they go to.
pub fn all_keys_common(env: &mut Environment, this: id) -> (r: Vec<id>)
    requires
        old(env).objc.dictionaries@.contains_key(this),
    ensures
        r@ == keys_of(old(env).objc.dictionaries@[this].view().pairs()),
        *final(env) == old(env).with_objc(final(env).objc),
        final(env).objc.acted(old(env).objc, retain_actions(r@)),
{
    broadcast use vstd::std_specs::hash::group_hash_axioms;

    let keys: Vec<id> = match env.objc.dictionaries.get(&this) {
        Some(d) => d.iter_keys(),
        None => Vec::new(),
    };
    retain_all(env, &keys);
    keys
}

/// What autoreleasing objects sends.
pub open spec fn autorelease_actions(objects: Seq<id>) -> Seq<Action>
    decreases objects.len(),
{
    if objects.len() == 0 {
        Seq::empty()
    } else {
        let front = autorelease_actions(objects.drop_last());
        if objects.last() == nil {
            front
        } else {
            front.push(Action::Autorelease(objects.last()))
        }
    }
}

/// The keys of a dictionary were taken through `allKeys`: each was retained for
/// an array that is autoreleased, so that each is released again when the pool
/// is drained, and not before.
pub open spec fn keys_taken(before: Environment, after: Environment, keys: Seq<id>) -> bool {
    &&& after == before.with_objc(after.objc)
    &&& after.objc.acted(before.objc, retain_actions(keys) + autorelease_actions(keys))
}

/// The keys of a dictionary, kept alive until the pool is drained.
pub fn take_keys(env: &mut Environment, this: id) -> (r: Vec<id>)
    requires
        old(env).objc.dictionaries@.contains_key(this),
    ensures
        r@ == keys_of(old(env).objc.dictionaries@[this].view().pairs()),
        keys_taken(*old(env), *final(env), r@),
{
    let keys: Vec<id> = all_keys_common(env, this);
    let ghost held = env.objc;
    let n: usize = keys.len();
    let mut i: usize = 0;
    assert(keys@.take(0) =~= Seq::empty());
    assert(held.actions@ + Seq::<Action>::empty() =~= held.actions@);
    while i < n
        invariant
            i <= n == keys@.len(),
            *env == old(env).with_objc(env.objc),
            held.acted(old(env).objc, retain_actions(keys@)),
            env.objc.acted(held, autorelease_actions(keys@.take(i as int))),
        decreases n - i,
    {
        let ghost before = env.objc;
        if keys[i] != nil {
            env.objc.act(Action::Autorelease(keys[i]));
        }
        proof {
            assert(keys@.take(i + 1).drop_last() =~= keys@.take(i as int));
            assert(env.objc.actions@ =~= held.actions@ + autorelease_actions(keys@.take(i + 1)));
        }
        i = i + 1;
    }
    proof {
        assert(keys@.take(n as int) =~= keys@);
        assert(env.objc.actions@ =~= old(env).objc.actions@ + (retain_actions(keys@)
            + autorelease_actions(keys@)));
    }
    keys
}

/// `- (NSArray *)allValues`: the values, retained for the array that they go to.
pub fn all_values(env: &mut Environment, this: id) -> (r: Vec<id>)
    requires
        old(env).objc.dictionaries@.contains_key(this),
    ensures
        r@ == values_of(old(env).objc.dictionaries@[this].view().pairs()),
        *final(env) == old(env).with_objc(final(env).objc),
        final(env).objc.acted(old(env).objc, retain_actions(r@)),
{
    broadcast use vstd::std_specs::hash::group_hash_axioms;

    let values: Vec<id> = match env.objc.dictionaries.get(&this) {
        Some(d) => d.iter_values(),
        None => Vec::new(),
    };
    retain_all(env, &values);
    values
}

/// A new object of a class was made, and given the given pairs.
pub open spec fn dictionary_made(
    before: Environment,
    after: Environment,
    class: id,
    pairs: Seq<Pair>,
    r: id,
) -> bool {
    exists|made: Environment| #[trigger]
        object_made(before, made, class, r) && dictionary_built(made, after, r, pairs)
}

/// A new object of a class was made.
pub open spec fn object_made(before: Environment, after: Environment, class: id, r: id) -> bool {
    &&& after == before.with_mem(after.mem).with_objc(after.objc)
    &&& after.objc.made(before.objc, r)
    &&& after.mem.placed(before.mem, r, le_bytes(class as int, 4))
}

fn make_dictionary(env: &mut Environment, class: id, pairs: &Vec<Pair>) -> (r: id)
    requires
        old(env).wf(),
        old(env).mem.has_room(4),
        keys_known(old(env).objc, pairs@),
        pairs@.len() <= u32::MAX,
    ensures
        final(env).wf(),
        dictionary_made(*old(env), *final(env), class, pairs@, r),
{
    let dict: id = env.objc.alloc_object(class, &mut env.mem);
    assert(object_made(*old(env), *env, class, dict));
    build_into(env, dict, pairs);
    dict
}

/// Direct constructor for use by host code, similar to
/// `[[NSDictionary alloc] initWithObjectsAndKeys:]` but without variadics and
/// with a more intuitive argument order. This **does** copy and retain!
pub fn dict_from_keys_and_objects(env: &mut Environment, keys_and_objects: &Vec<Pair>) -> (r: id)
    requires
        old(env).wf(),
        old(env).mem.has_room(4),
        keys_known(old(env).objc, keys_and_objects@),
        keys_and_objects@.len() <= u32::MAX,
    ensures
        final(env).wf(),
        dictionary_made(
            *old(env),
            *final(env),
            old(env).objc.classes.ns_dictionary,
            keys_and_objects@,
            r,
        ),
{
    let class: id = env.objc.classes.ns_dictionary;
    make_dictionary(env, class, keys_and_objects)
}

/// Direct constructor for use by host code, similar to
/// `[[NSMutableDictionary alloc] initWithObjectsAndKeys:]` but without
/// variadics and with a more intuitive argument order. This **does** copy and
/// retain!
pub fn mutable_dict_from_keys_and_objects(env: &mut Environment, keys_and_objects: &Vec<Pair>) -> (r:
    id)
    requires
        old(env).wf(),
        old(env).mem.has_room(4),
        keys_known(old(env).objc, keys_and_objects@),
        keys_and_objects@.len() <= u32::MAX,
    ensures
        final(env).wf(),
        dictionary_made(
            *old(env),
            *final(env),
            old(env).objc.classes.ns_mutable_dictionary,
            keys_and_objects@,
            r,
        ),
{
    let class: id = env.objc.classes.ns_mutable_dictionary;
    make_dictionary(env, class, keys_and_objects)
}

/// What `setObject:forKey:` does: a null key or object is ignored.
pub open spec fn object_set_for_key(
    before: Environment,
    after: Environment,
    this: id,
    object: id,
    key: id,
) -> bool {
    let d = before.objc.dictionaries@[this].view();
    let e = after.objc.dictionaries@[this];
    if object == nil || key == nil {
        after == before
    } else {
        &&& after == before.with_objc(after.objc)
        &&& after.objc.dictionary_set(
            before.objc,
            this,
            e,
            insert_actions(d, before.objc, key, object, true),
        )
        &&& e.view() == d.inserted(before.objc, before.objc.copy_of(key), object)
        &&& e.view().wf()
    }
}

/// `- (void)setObject:(id)object forKey:(id)key`
pub fn set_object_for_key(env: &mut Environment, this: id, object: id, key: id)
    requires
        old(env).objc.dictionaries@.contains_key(this),
        ({
            let d = old(env).objc.dictionaries@[this];
            &&& d.view().wf()
            &&& d.count < u32::MAX
        }),
        key != nil ==> old(env).objc.copy_known(key) && old(env).objc.hash_known(
            old(env).objc.copy_of(key),
        ),
    ensures
        object_set_for_key(*old(env), *final(env), this, object, key),
{
    broadcast use vstd::std_specs::hash::group_hash_axioms;

    if object == nil || key == nil {
        return;
    }
    let ghost objc = env.objc;
    let mut host: DictionaryHostObject = match env.objc.dictionaries.remove(&this) {
        Some(d) => d,
        None => DictionaryHostObject::new(),
    };
    let ghost d = host.view();
    let ghost taken = env.objc;
    proof {
        lemma_same_answers_but_dictionaries(objc, taken, d, objc.copy_of(key), object);
    }
    host.insert(env, key, object, true);
    let ghost e = host;
    let _ = env.objc.dictionaries.insert(this, host);
    proof {
        assert(env.objc.dictionaries@ =~= objc.dictionaries@.insert(this, e));
    }
}

proof fn lemma_same_answers_but_dictionaries(
    a: ObjC,
    b: ObjC,
    d: DictView,
    key: id,
    value: id,
)
    requires
        b == (ObjC { dictionaries: b.dictionaries, ..a }),
    ensures
        d.inserted(b, key, value) == d.inserted(a, key, value),
        d.place(b, key) == d.place(a, key),
        d.removed(b, key) == d.removed(a, key),
        b.hash_of(key) == a.hash_of(key),
{
    if let Some(k) = bucket_index(d.buckets, a.hash_of(key), 0) {
        lemma_pair_index_answers(a, b, d.buckets[k].1, key, 0);
    }
}

proof fn lemma_pair_index_answers(a: ObjC, b: ObjC, pairs: Seq<Pair>, key: id, from: int)
    requires
        b.equals == a.equals,
        0 <= from,
    ensures
        pair_index(b, pairs, key, from) == pair_index(a, pairs, key, from),
    decreases pairs.len() - from,
{
    if from < pairs.len() {
        lemma_pair_index_answers(a, b, pairs, key, from + 1);
    }
}

/// What `removeObjectForKey:` does: a null key is ignored.
pub open spec fn object_removed_for_key(
    before: Environment,
    after: Environment,
    this: id,
    key: id,
) -> bool {
    let d = before.objc.dictionaries@[this].view();
    let e = after.objc.dictionaries@[this];
    if key == nil {
        after == before
    } else {
        &&& after == before.with_objc(after.objc)
        &&& after.objc.dictionary_set(
            before.objc,
            this,
            e,
            remove_actions(d, before.objc, key),
        )
        &&& e.view() == d.removed(before.objc, key)
        &&& e.view().wf()
    }
}

/// `- (void)removeObjectForKey:(id)key`
pub fn remove_object_for_key(env: &mut Environment, this: id, key: id)
    requires
        old(env).objc.dictionaries@.contains_key(this),
        old(env).objc.dictionaries@[this].view().wf(),
        old(env).objc.hash_known(key),
    ensures
        object_removed_for_key(*old(env), *final(env), this, key),
{
    broadcast use vstd::std_specs::hash::group_hash_axioms;

    if key == nil {
        return;
    }
    let ghost objc = env.objc;
    let mut host: DictionaryHostObject = match env.objc.dictionaries.remove(&this) {
        Some(d) => d,
        None => DictionaryHostObject::new(),
    };
    let ghost d = host.view();
    proof {
        lemma_same_answers_but_dictionaries(objc, env.objc, d, key, nil);
    }
    host.remove(env, key);
    let ghost e = host;
    let _ = env.objc.dictionaries.insert(this, host);
    proof {
        assert(env.objc.dictionaries@ =~= objc.dictionaries@.insert(this, e));
    }
}

/// `- (void)setValue:(id)value forKey:(id)key`, and the subscript that sets a
/// value: a null value removes the key.
pub fn set_value_for_key(env: &mut Environment, this: id, value: id, key: id)
    requires
        old(env).objc.dictionaries@.contains_key(this),
        ({
            let d = old(env).objc.dictionaries@[this];
            &&& d.view().wf()
            &&& d.count < u32::MAX
        }),
        key != nil ==> old(env).objc.copy_known(key) && old(env).objc.hash_known(
            old(env).objc.copy_of(key),
        ) && old(env).objc.hash_known(key),
    ensures
        if value == nil {
            object_removed_for_key(*old(env), *final(env), this, key)
        } else {
            object_set_for_key(*old(env), *final(env), this, value, key)
        },
{
    if value == nil {
        remove_object_for_key(env, this, key);
    } else {
        set_object_for_key(env, this, value, key);
    }
}

/// `- (void)removeAllObjects`: every key and value is released.
pub fn remove_all_objects(env: &mut Environment, this: id)
    requires
        old(env).objc.dictionaries@.contains_key(this),
        old(env).objc.dictionaries@[this].view().wf(),
    ensures
        ({
            let d = old(env).objc.dictionaries@[this].view();
            let e = final(env).objc.dictionaries@[this];
            &&& *final(env) == old(env).with_objc(final(env).objc)
            &&& final(env).objc.dictionary_set(
                old(env).objc,
                this,
                e,
                release_actions(d.pairs()),
            )
            &&& e.view() == DictView::empty()
        }),
{
    broadcast use vstd::std_specs::hash::group_hash_axioms;

    let ghost objc = env.objc;
    let mut host: DictionaryHostObject = match env.objc.dictionaries.remove(&this) {
        Some(d) => d,
        None => DictionaryHostObject::new(),
    };
    host.release(env);
    let empty: DictionaryHostObject = DictionaryHostObject::new();
    let ghost e = empty;
    let _ = env.objc.dictionaries.insert(this, empty);
    assert(env.objc.dictionaries@ =~= objc.dictionaries@.insert(this, e));
}

/// `- (id)objectForKey:(id)key`
pub fn object_for_key(env: &Environment, this: id, key: id) -> (r: id)
    requires
        env.objc.dictionaries@.contains_key(this),
        env.objc.hash_known(key),
    ensures
        r == env.objc.dictionaries@[this].view().value(env.objc, key),
{
    broadcast use vstd::std_specs::hash::group_hash_axioms;

    match env.objc.dictionaries.get(&this) {
        Some(d) => d.lookup(env, key),
        None => nil,
    }
}

/// The lines of a description, for keys and values that are described already.
pub open spec fn description_lines(items: Seq<(Vec<u8>, Vec<u8>)>) -> Seq<u8>
    decreases items.len(),
{
    if items.len() == 0 {
        Seq::empty()
    } else {
        let (key, value) = items.last();
        description_lines(items.drop_last()) + seq![0x09u8] + key@ + seq![0x20u8, 0x3du8, 0x20u8]
            + value@ + seq![0x3bu8, 0x0au8]
    }
}

/// The text of a description: a line for each pair, in braces.
pub open spec fn description_text(items: Seq<(Vec<u8>, Vec<u8>)>) -> Seq<u8> {
    seq![0x7bu8, 0x0au8] + description_lines(items) + seq![0x7du8]
}

/// A helper to build a description for a NSDictionary or a
/// NSMutableDictionary, from the descriptions of its keys and values.
pub fn build_description(items: &Vec<(Vec<u8>, Vec<u8>)>) -> (r: Vec<u8>)
    ensures
        r@ == description_text(items@),
{
    let mut text: Vec<u8> = vec![0x7b, 0x0a];
    let n: usize = items.len();
    let mut i: usize = 0;
    assert(items@.take(0) =~= Seq::empty());
    assert(text@ =~= seq![0x7bu8, 0x0au8] + description_lines(items@.take(0)));
    while i < n
        invariant
            i <= n == items@.len(),
            text@ == seq![0x7bu8, 0x0au8] + description_lines(items@.take(i as int)),
        decreases n - i,
    {
        let ghost before = text@;
        let mut key: Vec<u8> = items[i].0.clone();
        let mut value: Vec<u8> = items[i].1.clone();
        text.push(0x09);
        text.append(&mut key);
        text.push(0x20);
        text.push(0x3d);
        text.push(0x20);
        text.append(&mut value);
        text.push(0x3b);
        text.push(0x0a);
        proof {
            let now = items@.take(i + 1);
            assert(now.drop_last() =~= items@.take(i as int));
            assert(text@ =~= seq![0x7bu8, 0x0au8] + description_lines(now));
        }
        i = i + 1;
    }
    assert(items@.take(n as int) =~= items@);
    text.push(0x7d);
    assert(text@ =~= description_text(items@));
    text
}

/// How a `CFDictionary` treats its keys: a function that is null does nothing,
/// and keys then hash and compare by their addresses.
#[derive(Clone, Copy, Debug, PartialEq, Eq, Structural)]
pub struct CFDictionaryKeyCallBacks {
    pub version: i32,
    /// const void *(*retain)(CFAllocatorRef, const void *value)
    pub retain: GuestFunction,
    /// void (*release)(CFAllocatorRef alloc, const void *val)
    pub release: GuestFunction,
    /// CFStringRef (*copy_desc)(const void *val)
    pub copy_desc: GuestFunction,
    /// Boolean (*equal)(const void *val1, const void *val2)
    pub equal: GuestFunction,
    /// CFHashCode (*hash)(const void *val)
    pub hash: GuestFunction,
}

/// How a `CFDictionary` treats its values.
#[derive(Clone, Copy, Debug, PartialEq, Eq, Structural)]
pub struct CFDictionaryValueCallBacks {
    pub version: i32,
    /// const void *(*retain)(CFAllocatorRef, const void *value)
    pub retain: GuestFunction,
    /// void (*release)(CFAllocatorRef alloc, const void *val)
    pub release: GuestFunction,
    /// CFStringRef (*copy_desc)(const void *val)
    pub copy_desc: GuestFunction,
    /// Boolean (*equal)(const void *val1, const void *val2)
    pub equal: GuestFunction,
}

/// The contents of a `CFDictionary`: those of a dictionary, with functions of
/// its own for keys and values.
pub struct CFDictionaryHostObject {
    pub superclass: DictionaryHostObject,
    /// `CFDictionaryKeyCallBacks`
    pub key_callbacks: CFDictionaryKeyCallBacks,
    /// `CFDictionaryValueCallBacks`
    pub value_callbacks: CFDictionaryValueCallBacks,
}

/// What a function that may be null returned, or else `otherwise`.
pub open spec fn answer_or(objc: ObjC, func: GuestFunction, a: u32, b: u32, otherwise: u32) -> u32 {
    if func == 0 {
        otherwise
    } else {
        objc.answer(func, a, b)->0
    }
}

/// It is known what a function that may be null returned.
pub open spec fn answer_known(objc: ObjC, func: GuestFunction, a: u32, b: u32) -> bool {
    func == 0 || objc.answer(func, a, b) is Some
}

impl CFDictionaryKeyCallBacks {
    pub open spec fn hash_of(self, objc: ObjC, key: id) -> u32 {
        answer_or(objc, self.hash, key, 0, key)
    }

    pub open spec fn equal_keys(self, objc: ObjC, a: id, b: id) -> bool {
        if self.equal == 0 {
            a == b
        } else {
            objc.answer(self.equal, a, b)->0 != 0
        }
    }

    pub open spec fn retained(self, objc: ObjC, key: id) -> id {
        answer_or(objc, self.retain, nil, key, key)
    }

    /// Everything that is asked of keys when `key` is looked for in `d` is
    /// known.
    pub open spec fn known(self, objc: ObjC, d: DictView, key: id) -> bool {
        &&& answer_known(objc, self.hash, key, 0)
        &&& forall|b: int, i: int|
            #![trigger d.buckets[b].1[i]]
            0 <= b < d.buckets.len() && 0 <= i < d.buckets[b].1.len() ==> answer_known(
                objc,
                self.equal,
                d.buckets[b].1[i].0,
                key,
            )
    }
}

/// The pair whose key the functions take for `key`, from the one numbered
/// `from` on.
pub open spec fn cf_pair_index(
    objc: ObjC,
    callbacks: CFDictionaryKeyCallBacks,
    pairs: Seq<Pair>,
    key: id,
    from: int,
) -> Option<int>
    decreases pairs.len() - from,
{
    if from < 0 || from >= pairs.len() {
        None
    } else if callbacks.equal_keys(objc, pairs[from].0, key) {
        Some(from)
    } else {
        cf_pair_index(objc, callbacks, pairs, key, from + 1)
    }
}

/// Where a key is in a `CFDictionary`.
pub open spec fn cf_place(
    objc: ObjC,
    callbacks: CFDictionaryKeyCallBacks,
    d: DictView,
    key: id,
) -> Option<(int, int)> {
    match bucket_index(d.buckets, callbacks.hash_of(objc, key), 0) {
        None => None,
        Some(b) => match cf_pair_index(objc, callbacks, d.buckets[b].1, key, 0) {
            None => None,
            Some(i) => Some((b, i)),
        },
    }
}

/// The value of a key in a `CFDictionary`.
pub open spec fn cf_value(
    objc: ObjC,
    callbacks: CFDictionaryKeyCallBacks,
    d: DictView,
    key: id,
) -> id {
    match cf_place(objc, callbacks, d, key) {
        None => nil,
        Some((b, i)) => d.buckets[b].1[i].1,
    }
}

/// The contents of a `CFDictionary` without `key`.
pub open spec fn cf_removed(
    objc: ObjC,
    callbacks: CFDictionaryKeyCallBacks,
    d: DictView,
    key: id,
) -> DictView {
    match cf_place(objc, callbacks, d, key) {
        None => d,
        Some((b, i)) => DictView {
            buckets: d.buckets.update(b, (d.buckets[b].0, d.buckets[b].1.remove(i))),
            count: d.count - 1,
        },
    }
}

/// What a removal from a `CFDictionary` calls.
pub open spec fn cf_remove_actions(
    objc: ObjC,
    keys: CFDictionaryKeyCallBacks,
    values: CFDictionaryValueCallBacks,
    d: DictView,
    key: id,
) -> Seq<Action> {
    match cf_place(objc, keys, d, key) {
        None => Seq::empty(),
        Some((b, i)) => calls(keys.release, d.buckets[b].1[i].0) + calls(
            values.release,
            d.buckets[b].1[i].1,
        ),
    }
}

/// A call of a function that may be null, with an object.
pub open spec fn calls(func: GuestFunction, object: id) -> Seq<Action> {
    if func == 0 {
        Seq::empty()
    } else {
        seq![Action::Call(func, nil, object)]
    }
}

/// The contents of a `CFDictionary` with `key` given a value. Where there is a
/// bucket for the key's hash value, a pair that is there for the retained key
/// is removed first.
pub open spec fn cf_inserted(
    objc: ObjC,
    keys: CFDictionaryKeyCallBacks,
    values: CFDictionaryValueCallBacks,
    d: DictView,
    key: id,
    value: id,
) -> DictView {
    let h = keys.hash_of(objc, key);
    let pair = (keys.retained(objc, key), answer_or(objc, values.retain, nil, value, value));
    match bucket_index(d.buckets, h, 0) {
        None => DictView { buckets: d.buckets.push((h, seq![pair])), count: d.count + 1 },
        Some(b) => {
            let e = cf_removed(objc, keys, d, pair.0);
            DictView {
                buckets: e.buckets.update(b, (e.buckets[b].0, e.buckets[b].1.push(pair))),
                count: e.count + 1,
            }
        },
    }
}

/// What an insertion into a `CFDictionary` calls, besides retaining.
pub open spec fn cf_insert_actions(
    objc: ObjC,
    keys: CFDictionaryKeyCallBacks,
    values: CFDictionaryValueCallBacks,
    d: DictView,
    key: id,
) -> Seq<Action> {
    match bucket_index(d.buckets, keys.hash_of(objc, key), 0) {
        None => Seq::empty(),
        Some(_) => cf_remove_actions(objc, keys, values, d, keys.retained(objc, key)),
    }
}

proof fn lemma_cf_pair_index(
    objc: ObjC,
    callbacks: CFDictionaryKeyCallBacks,
    pairs: Seq<Pair>,
    key: id,
    from: int,
)
    requires
        0 <= from,
    ensures
        cf_pair_index(objc, callbacks, pairs, key, from) matches Some(i) ==> from <= i
            < pairs.len() && callbacks.equal_keys(objc, pairs[i].0, key),
    decreases pairs.len() - from,
{
    if from < pairs.len() && !callbacks.equal_keys(objc, pairs[from].0, key) {
        lemma_cf_pair_index(objc, callbacks, pairs, key, from + 1);
    }
}

proof fn lemma_cf_removed_wf(
    objc: ObjC,
    callbacks: CFDictionaryKeyCallBacks,
    d: DictView,
    key: id,
)
    requires
        d.wf(),
    ensures
        cf_removed(objc, callbacks, d, key).wf(),
        cf_removed(objc, callbacks, d, key).buckets.len() == d.buckets.len(),
        forall|i: int|
            0 <= i < d.buckets.len() ==> (#[trigger] cf_removed(
                objc,
                callbacks,
                d,
                key,
            ).buckets[i]).0 == d.buckets[i].0,
        cf_place(objc, callbacks, d, key) is Some ==> d.count > 0,
{
    let e = cf_removed(objc, callbacks, d, key);
    lemma_bucket_index(d.buckets, callbacks.hash_of(objc, key), 0);
    if let Some((b, i)) = cf_place(objc, callbacks, d, key) {
        lemma_cf_pair_index(objc, callbacks, d.buckets[b].1, key, 0);
        lemma_pairs_updated(d, e, b, d.buckets.len() as int);
        lemma_pairs_split(d, b, d.buckets.len() as int);
        assert forall|i: int, j: int|
            #![trigger e.buckets[i], e.buckets[j]]
            0 <= i < j < e.buckets.len() implies e.buckets[i].0 != e.buckets[j].0 by {
            assert(d.buckets[i].0 != d.buckets[j].0);
        }
    }
}

proof fn lemma_cf_inserted_wf(
    objc: ObjC,
    keys: CFDictionaryKeyCallBacks,
    values: CFDictionaryValueCallBacks,
    d: DictView,
    key: id,
    value: id,
)
    requires
        d.wf(),
    ensures
        cf_inserted(objc, keys, values, d, key, value).wf(),
{
    let h = keys.hash_of(objc, key);
    let pair = (keys.retained(objc, key), answer_or(objc, values.retain, nil, value, value));
    let f = cf_inserted(objc, keys, values, d, key, value);
    lemma_bucket_index(d.buckets, h, 0);
    match bucket_index(d.buckets, h, 0) {
        None => {
            let n = d.buckets.len() as int;
            assert forall|i: int| 0 <= i < n implies (#[trigger] d.buckets[i]) == f.buckets[i] by {}
            lemma_pairs_before_same(d, f, n);
            assert(f.buckets[n] == (h, seq![pair]));
            assert forall|i: int, j: int|
                #![trigger f.buckets[i], f.buckets[j]]
                0 <= i < j < f.buckets.len() implies f.buckets[i].0 != f.buckets[j].0 by {
                if j < n {
                    assert(d.buckets[i].0 != d.buckets[j].0);
                } else {
                    assert(d.buckets[i].0 != h);
                }
            }
        },
        Some(b) => {
            let e = cf_removed(objc, keys, d, pair.0);
            lemma_cf_removed_wf(objc, keys, d, pair.0);
            lemma_pairs_updated(e, f, b, e.buckets.len() as int);
            assert forall|i: int, j: int|
                #![trigger f.buckets[i], f.buckets[j]]
                0 <= i < j < f.buckets.len() implies f.buckets[i].0 != f.buckets[j].0 by {
                assert(e.buckets[i].0 != e.buckets[j].0);
            }
        },
    }
}

/// A key that was inserted into a `CFDictionary` is looked up with its value,
/// where a key that is retained hashes as before and equals what was looked
/// for, and no other key in the dictionary does.
pub proof fn law_cf_insert_lookup(
    objc: ObjC,
    keys: CFDictionaryKeyCallBacks,
    values: CFDictionaryValueCallBacks,
    d: DictView,
    key: id,
    value: id,
)
    requires
        d.wf(),
        keys.retained(objc, key) == key,
        keys.equal_keys(objc, key, key),
        answer_or(objc, values.retain, nil, value, value) == value,
        forall|b: int, i: int|
            #![trigger d.buckets[b].1[i]]
            0 <= b < d.buckets.len() && 0 <= i < d.buckets[b].1.len() && cf_place(
                objc,
                keys,
                d,
                key,
            ) != Some((b, i)) ==> !keys.equal_keys(objc, d.buckets[b].1[i].0, key),
    ensures
        cf_value(objc, keys, cf_inserted(objc, keys, values, d, key, value), key) == value,
{
    let h = keys.hash_of(objc, key);
    let f = cf_inserted(objc, keys, values, d, key, value);
    lemma_bucket_index(d.buckets, h, 0);
    match bucket_index(d.buckets, h, 0) {
        None => {
            lemma_bucket_index_is(f.buckets, h, 0, d.buckets.len() as int);
            lemma_cf_pair_index_is(objc, keys, seq![(key, value)], key, 0, 0);
        },
        Some(b) => {
            let e = cf_removed(objc, keys, d, key);
            lemma_cf_removed_wf(objc, keys, d, key);
            lemma_first_bucket(e, h, b);
            assert forall|j: int| 0 <= j < b implies (#[trigger] f.buckets[j]).0 != h by {
                assert(e.buckets[j].0 != h);
            }
            lemma_bucket_index_is(f.buckets, h, 0, b);
            let rest = e.buckets[b].1;
            let pairs = d.buckets[b].1;
            lemma_cf_pair_index(objc, keys, pairs, key, 0);
            assert forall|j: int| 0 <= j < rest.len() implies !keys.equal_keys(
                objc,
                (#[trigger] rest[j]).0,
                key,
            ) by {
                match cf_pair_index(objc, keys, pairs, key, 0) {
                    Some(i) => {
                        if j < i {
                            assert(rest[j] == pairs[j]);
                            assert(d.buckets[b].1[j] == pairs[j]);
                        } else {
                            assert(rest[j] == pairs[j + 1]);
                            assert(d.buckets[b].1[j + 1] == pairs[j + 1]);
                        }
                    },
                    None => {
                        assert(d.buckets[b].1[j] == rest[j]);
                    },
                }
            }
            lemma_cf_pair_index_is(
                objc,
                keys,
                f.buckets[b].1,
                key,
                0,
                rest.len() as int,
            );
        },
    }
}

proof fn lemma_cf_pair_index_is(
    objc: ObjC,
    callbacks: CFDictionaryKeyCallBacks,
    pairs: Seq<Pair>,
    key: id,
    from: int,
    k: int,
)
    requires
        0 <= from <= k < pairs.len(),
        forall|j: int|
            from <= j < k ==> !callbacks.equal_keys(objc, (#[trigger] pairs[j]).0, key),
        callbacks.equal_keys(objc, pairs[k].0, key),
    ensures
        cf_pair_index(objc, callbacks, pairs, key, from) == Some(k),
    decreases k - from,
{
    if from < k {
        lemma_cf_pair_index_is(objc, callbacks, pairs, key, from + 1, k);
    }
}

fn call_or(objc: &ObjC, func: GuestFunction, a: u32, b: u32, otherwise: u32) -> (r: u32)
    requires
        answer_known(*objc, func, a, b),
    ensures
        r == answer_or(*objc, func, a, b, otherwise),
{
    if func == 0 {
        return otherwise;
    }
    match objc.get_answer(func, a, b) {
        Some(ret) => ret,
        None => otherwise,
    }
}

impl CFDictionaryHostObject {
    /// An empty dictionary whose keys and values are addresses and nothing
    /// else.
    pub fn new() -> (r: CFDictionaryHostObject)
        ensures
            r.superclass.view() == DictView::empty(),
            r.key_callbacks == (CFDictionaryKeyCallBacks {
                version: 0,
                retain: 0,
                release: 0,
                copy_desc: 0,
                equal: 0,
                hash: 0,
            }),
            r.value_callbacks == (CFDictionaryValueCallBacks {
                version: 0,
                retain: 0,
                release: 0,
                copy_desc: 0,
                equal: 0,
            }),
    {
        CFDictionaryHostObject {
            superclass: DictionaryHostObject::new(),
            key_callbacks: CFDictionaryKeyCallBacks {
                version: 0,
                retain: 0,
                release: 0,
                copy_desc: 0,
                equal: 0,
                hash: 0,
            },
            value_callbacks: CFDictionaryValueCallBacks {
                version: 0,
                retain: 0,
                release: 0,
                copy_desc: 0,
                equal: 0,
            },
        }
    }

    pub fn hash(&self, env: &Environment, key: id) -> (r: u32)
        requires
            answer_known(env.objc, self.key_callbacks.hash, key, 0),
        ensures
            r == self.key_callbacks.hash_of(env.objc, key),
    {
        call_or(&env.objc, self.key_callbacks.hash, key, 0, key)
    }

    pub fn equal_keys(&self, env: &Environment, key1: id, key2: id) -> (r: bool)
        requires
            answer_known(env.objc, self.key_callbacks.equal, key1, key2),
        ensures
            r == self.key_callbacks.equal_keys(env.objc, key1, key2),
    {
        if self.key_callbacks.equal == 0 {
            key1 == key2
        } else {
            call_or(&env.objc, self.key_callbacks.equal, key1, key2, 0) != 0
        }
    }

    pub fn retain_key(&self, env: &Environment, key: id) -> (r: id)
        requires
            answer_known(env.objc, self.key_callbacks.retain, nil, key),
        ensures
            r == self.key_callbacks.retained(env.objc, key),
    {
        call_or(&env.objc, self.key_callbacks.retain, nil, key, key)
    }

    pub fn retain_value(&self, env: &Environment, value: id) -> (r: id)
        requires
            answer_known(env.objc, self.value_callbacks.retain, nil, value),
        ensures
            r == answer_or(env.objc, self.value_callbacks.retain, nil, value, value),
    {
        call_or(&env.objc, self.value_callbacks.retain, nil, value, value)
    }

    pub fn release_key(&self, env: &mut Environment, key: id)
        ensures
            *final(env) == old(env).with_objc(final(env).objc),
            final(env).objc.acted(old(env).objc, calls(self.key_callbacks.release, key)),
    {
        if self.key_callbacks.release != 0 {
            env.objc.act(Action::Call(self.key_callbacks.release, nil, key));
        } else {
            assert(env.objc.actions@ + Seq::<Action>::empty() =~= env.objc.actions@);
        }
    }

    pub fn release_value(&self, env: &mut Environment, value: id)
        ensures
            *final(env) == old(env).with_objc(final(env).objc),
            final(env).objc.acted(old(env).objc, calls(self.value_callbacks.release, value)),
    {
        if self.value_callbacks.release != 0 {
            env.objc.act(Action::Call(self.value_callbacks.release, nil, value));
        } else {
            assert(env.objc.actions@ + Seq::<Action>::empty() =~= env.objc.actions@);
        }
    }

    fn find_place(&self, env: &Environment, key: id) -> (r: Option<(usize, usize)>)
        requires
            self.key_callbacks.known(env.objc, self.superclass.view(), key),
        ensures
            match cf_place(env.objc, self.key_callbacks, self.superclass.view(), key) {
                None => r is None,
                Some((b, i)) => (r matches Some((c, j)) && c == b && j == i) && 0 <= b
                    < self.superclass.buckets@.len() && 0 <= i
                    < self.superclass.buckets@[b].pairs@.len(),
            },
    {
        let ghost d = self.superclass.view();
        let hash: u32 = self.hash(env, key);
        let b: usize = match self.superclass.find_bucket(hash) {
            Some(b) => b,
            None => {
                return None;
            },
        };
        let ghost pairs = self.superclass.buckets@[b as int].pairs@;
        assert(d.buckets[b as int].1 == pairs);
        let n: usize = self.superclass.buckets[b].pairs.len();
        let mut i: usize = 0;
        while i < n
            invariant
                i <= n == pairs.len(),
                b < self.superclass.buckets@.len(),
                pairs == self.superclass.buckets@[b as int].pairs@,
                d == self.superclass.view(),
                d.buckets[b as int].1 == pairs,
                bucket_index(d.buckets, self.key_callbacks.hash_of(env.objc, key), 0) == Some(
                    b as int,
                ),
                self.key_callbacks.known(env.objc, d, key),
                cf_pair_index(env.objc, self.key_callbacks, pairs, key, 0) == cf_pair_index(
                    env.objc,
                    self.key_callbacks,
                    pairs,
                    key,
                    i as int,
                ),
            decreases n - i,
        {
            let candidate: id = self.superclass.buckets[b].pairs[i].0;
            assert(d.buckets[b as int].1[i as int].0 == candidate);
            if self.equal_keys(env, candidate, key) {
                return Some((b, i));
            }
            i = i + 1;
        }
        None
    }

    /// The value of `key`, or null.
    pub fn lookup(&self, env: &Environment, key: id) -> (r: id)
        requires
            self.key_callbacks.known(env.objc, self.superclass.view(), key),
        ensures
            r == cf_value(env.objc, self.key_callbacks, self.superclass.view(), key),
    {
        match self.find_place(env, key) {
            Some((b, i)) => self.superclass.buckets[b].pairs[i].1,
            None => nil,
        }
    }

    /// Takes `key` out, and tells whether it was there.
    pub fn remove(&mut self, env: &mut Environment, key: id) -> (r: bool)
        requires
            old(self).superclass.view().wf(),
            old(self).key_callbacks.known(old(env).objc, old(self).superclass.view(), key),
        ensures
            ({
                let d = old(self).superclass.view();
                let keys = old(self).key_callbacks;
                &&& r == (cf_place(old(env).objc, keys, d, key) is Some)
                &&& *final(self) == (CFDictionaryHostObject {
                    superclass: final(self).superclass,
                    ..*old(self)
                })
                &&& final(self).superclass.view() == cf_removed(old(env).objc, keys, d, key)
                &&& final(self).superclass.view().wf()
                &&& *final(env) == old(env).with_objc(final(env).objc)
                &&& final(env).objc.acted(
                    old(env).objc,
                    cf_remove_actions(old(env).objc, keys, old(self).value_callbacks, d, key),
                )
            }),
    {
        let ghost d = self.superclass.view();
        let ghost objc = env.objc;
        proof {
            lemma_cf_removed_wf(objc, self.key_callbacks, d, key);
            assert(objc.actions@ + Seq::<Action>::empty() =~= objc.actions@);
        }
        match self.find_place(env, key) {
            Some((b, i)) => {
                assert(d.buckets[b as int].1 == self.superclass.buckets@[b as int].pairs@);
                let existing: Pair = self.superclass.buckets[b].pairs.remove(i);
                self.superclass.count = self.superclass.count - 1;
                assert(self.superclass.view().buckets =~= cf_removed(
                    objc,
                    self.key_callbacks,
                    d,
                    key,
                ).buckets);
                self.release_key(env, existing.0);
                self.release_value(env, existing.1);
                assert(env.objc.actions@ =~= objc.actions@ + cf_remove_actions(
                    objc,
                    self.key_callbacks,
                    self.value_callbacks,
                    d,
                    key,
                ));
                true
            },
            None => false,
        }
    }

    /// Gives `key` the value `value`.
    pub fn insert(&mut self, env: &mut Environment, key: id, value: id)
        requires
            old(self).superclass.view().wf(),
            old(self).superclass.count < u32::MAX,
            ({
                let objc = old(env).objc;
                let keys = old(self).key_callbacks;
                &&& answer_known(objc, keys.hash, key, 0)
                &&& answer_known(objc, keys.retain, nil, key)
                &&& answer_known(objc, old(self).value_callbacks.retain, nil, value)
                &&& keys.known(objc, old(self).superclass.view(), keys.retained(objc, key))
            }),
        ensures
            ({
                let objc = old(env).objc;
                let keys = old(self).key_callbacks;
                let values = old(self).value_callbacks;
                let d = old(self).superclass.view();
                &&& *final(self) == (CFDictionaryHostObject {
                    superclass: final(self).superclass,
                    ..*old(self)
                })
                &&& final(self).superclass.view() == cf_inserted(
                    objc,
                    keys,
                    values,
                    d,
                    key,
                    value,
                )
                &&& final(self).superclass.view().wf()
                &&& *final(env) == old(env).with_objc(final(env).objc)
                &&& final(env).objc.acted(
                    objc,
                    cf_insert_actions(objc, keys, values, d, key),
                )
            }),
    {
        let ghost d = self.superclass.view();
        let ghost objc = env.objc;
        let ghost keys = self.key_callbacks;
        let ghost values = self.value_callbacks;
        let hash: u32 = self.hash(env, key);
        let key_: id = self.retain_key(env, key);
        let value_: id = self.retain_value(env, value);
        proof {
            lemma_cf_inserted_wf(objc, keys, values, d, key, value);
            assert(objc.actions@ + Seq::<Action>::empty() =~= objc.actions@);
        }
        match self.superclass.find_bucket(hash) {
            None => {
                let pairs: Vec<Pair> = vec![(key_, value_)];
                assert(pairs@ =~= seq![(key_, value_)]);
                self.superclass.buckets.push(Bucket { hash, pairs });
                self.superclass.count = self.superclass.count + 1;
                assert(self.superclass.view().buckets =~= cf_inserted(
                    objc,
                    keys,
                    values,
                    d,
                    key,
                    value,
                ).buckets);
            },
            Some(b) => {
                let _ = self.remove(env, key_);
                let ghost e = self.superclass.view();
                proof {
                    lemma_cf_removed_wf(objc, keys, d, key_);
                    assert(e.buckets[b as int].1 == self.superclass.buckets@[b as int].pairs@);
                }
                self.superclass.buckets[b].pairs.push((key_, value_));
                self.superclass.count = self.superclass.count + 1;
                assert(self.superclass.view().buckets =~= cf_inserted(
                    objc,
                    keys,
                    values,
                    d,
                    key,
                    value,
                ).buckets);
            },
        }
    }

    /// `initWithKeyCallbacks:andValueCallbacks:`: takes the functions over from
    /// guest memory. Functions for values alone are not taken.
    pub fn set_callbacks(
        &mut self,
        env: &Environment,
        key_callbacks: ConstPtr,
        value_callbacks: ConstPtr,
    )
        requires
            env.wf(),
            key_callbacks != 0 ==> env.mem.valid(key_callbacks as int, 24),
            key_callbacks != 0 && value_callbacks != 0 ==> env.mem.valid(
                value_callbacks as int,
                20,
            ),
        ensures
            *final(self) == (CFDictionaryHostObject {
                key_callbacks: if key_callbacks == 0 {
                    old(self).key_callbacks
                } else {
                    key_callbacks_at(env.mem, key_callbacks as int)
                },
                value_callbacks: if key_callbacks == 0 || value_callbacks == 0 {
                    old(self).value_callbacks
                } else {
                    value_callbacks_at(env.mem, value_callbacks as int)
                },
                ..*old(self)
            }),
    {
        if key_callbacks == 0 {
            return;
        }
        if value_callbacks != 0 {
            self.value_callbacks = CFDictionaryValueCallBacks {
                version: env.mem.read_i32(value_callbacks),
                retain: env.mem.read_u32(value_callbacks + 4),
                release: env.mem.read_u32(value_callbacks + 8),
                copy_desc: env.mem.read_u32(value_callbacks + 12),
                equal: env.mem.read_u32(value_callbacks + 16),
            };
        }
        self.key_callbacks = CFDictionaryKeyCallBacks {
            version: env.mem.read_i32(key_callbacks),
            retain: env.mem.read_u32(key_callbacks + 4),
            release: env.mem.read_u32(key_callbacks + 8),
            copy_desc: env.mem.read_u32(key_callbacks + 12),
            equal: env.mem.read_u32(key_callbacks + 16),
            hash: env.mem.read_u32(key_callbacks + 20),
        };
    }
}

/// The functions for keys that lie at `ptr`.
pub open spec fn key_callbacks_at(mem: Mem, ptr: int) -> CFDictionaryKeyCallBacks {
    CFDictionaryKeyCallBacks {
        version: crate::mem::signed32(le_u32(mem@, ptr)) as i32,
        retain: le_u32(mem@, ptr + 4) as u32,
        release: le_u32(mem@, ptr + 8) as u32,
        copy_desc: le_u32(mem@, ptr + 12) as u32,
        equal: le_u32(mem@, ptr + 16) as u32,
        hash: le_u32(mem@, ptr + 20) as u32,
    }
}

/// The functions for values that lie at `ptr`.
pub open spec fn value_callbacks_at(mem: Mem, ptr: int) -> CFDictionaryValueCallBacks {
    CFDictionaryValueCallBacks {
        version: crate::mem::signed32(le_u32(mem@, ptr)) as i32,
        retain: le_u32(mem@, ptr + 4) as u32,
        release: le_u32(mem@, ptr + 8) as u32,
        copy_desc: le_u32(mem@, ptr + 12) as u32,
        equal: le_u32(mem@, ptr + 16) as u32,
    }
}

} // verus!

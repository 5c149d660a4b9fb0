//! What the library knows of the Objective-C runtime.
//!
//! Objects answer messages with code of their own. What they answered to the
//! messages that matter here is recorded as plain values, and what is to be
//! sent to them in turn is listed as actions, in order.
use std::collections::HashMap;
use vstd::prelude::*;

use crate::frameworks::foundation::ns_dictionary::DictionaryHostObject;
use crate::mem::{le_bytes, lemma_le_bytes_4, Mem};

verus! {

broadcast use vstd::std_specs::hash::group_hash_axioms;

/// The address of an object.
pub type id = u32;

/// The null object.
pub const nil: id = 0;

/// The address of a guest function, with its lowest bit set for Thumb code.
pub type GuestFunction = u32;

/// What is to be sent to an object, or called.
#[derive(Clone, Copy, Debug, PartialEq, Eq, Structural)]
pub enum Action {
    Retain(id),
    Release(id),
    Autorelease(id),
    /// A guest function, with its two arguments.
    Call(GuestFunction, u32, u32),
    /// A guest function, with its one argument.
    Call1(GuestFunction, u32),
    /// A guest function, with its three arguments.
    Call3(GuestFunction, u32, u32, u32),
}

/// What a guest function returned for two arguments.
#[derive(Clone, Copy, Debug, PartialEq, Eq, Structural)]
pub struct GuestAnswer {
    pub func: GuestFunction,
    pub arg0: u32,
    pub arg1: u32,
    pub ret: u32,
}

/// Two objects, of which the first answered that it equals the second.
#[derive(Clone, Copy, Debug, PartialEq, Eq, Structural)]
pub struct EqualPair {
    pub receiver: id,
    pub argument: id,
}

/// The classes that objects are made of here.
#[derive(Clone, Copy, Debug, PartialEq, Eq, Structural)]
pub struct KnownClasses {
    pub ns_dictionary: id,
    pub ns_mutable_dictionary: id,
    pub cg_context: id,
    pub cg_data_provider: id,
    pub cg_font: id,
}

pub struct ObjC {
    /// The objects that have a state on the host.
    pub host_objects: Vec<id>,
    pub classes: KnownClasses,
    /// What objects answered to `hash`.
    pub hashes: HashMap<id, u32>,
    /// What objects answered to `copy`.
    pub copies: HashMap<id, id>,
    /// For which objects `isEqual:` was answered with yes.
    pub equals: Vec<EqualPair>,
    /// What guest functions returned.
    pub answers: Vec<GuestAnswer>,
    /// What is to be done, in order.
    pub actions: Vec<Action>,
    /// The contents of dictionaries.
    pub dictionaries: HashMap<id, DictionaryHostObject>,
}

/// The answer of `func` to two arguments, from the entry `from` on.
pub open spec fn answer_from(
    answers: Seq<GuestAnswer>,
    func: GuestFunction,
    arg0: u32,
    arg1: u32,
    from: int,
) -> Option<u32>
    decreases answers.len() - from,
{
    if from < 0 || from >= answers.len() {
        None
    } else if answers[from].func == func && answers[from].arg0 == arg0 && answers[from].arg1
        == arg1 {
        Some(answers[from].ret)
    } else {
        answer_from(answers, func, arg0, arg1, from + 1)
    }
}

impl ObjC {
    pub open spec fn has_host_object(&self, object: id) -> bool {
        self.host_objects@.contains(object)
    }

    /// It is known what the object answers to `hash`.
    pub open spec fn hash_known(&self, object: id) -> bool {
        object == nil || self.hashes@.contains_key(object)
    }

    /// The object's answer to `hash`; the null object answers zero.
    pub open spec fn hash_of(&self, object: id) -> u32 {
        if object == nil {
            0
        } else {
            self.hashes@[object]
        }
    }

    /// It is known what the object answers to `copy`.
    pub open spec fn copy_known(&self, object: id) -> bool {
        object == nil || self.copies@.contains_key(object)
    }

    /// The object's answer to `copy`; the null object answers null.
    pub open spec fn copy_of(&self, object: id) -> id {
        if object == nil {
            nil
        } else {
            self.copies@[object]
        }
    }

    /// Whether `receiver` answers `isEqual:` with yes.
    pub open spec fn is_equal(&self, receiver: id, argument: id) -> bool {
        self.equals@.contains(EqualPair { receiver, argument })
    }

    /// What a guest function returns for two arguments.
    pub open spec fn answer(&self, func: GuestFunction, arg0: u32, arg1: u32) -> Option<u32> {
        answer_from(self.answers@, func, arg0, arg1, 0)
    }

    /// This is `before` with more actions.
    pub open spec fn acted(&self, before: ObjC, more: Seq<Action>) -> bool {
        &&& *self == ObjC { actions: self.actions, ..before }
        &&& self.actions@ == before.actions@ + more
    }

    /// This is `before` with more actions, and with the dictionary `dict`
    /// replaced.
    pub open spec fn dictionary_set(
        &self,
        before: ObjC,
        dict: id,
        contents: DictionaryHostObject,
        more: Seq<Action>,
    ) -> bool {
        &&& *self == ObjC {
            actions: self.actions,
            dictionaries: self.dictionaries,
            ..before
        }
        &&& self.actions@ == before.actions@ + more
        &&& self.dictionaries@ == before.dictionaries@.insert(dict, contents)
    }

    /// There are no objects, and nothing is to be done.
    pub open spec fn fresh(&self) -> bool {
        &&& self.host_objects@.len() == 0
        &&& self.hashes@.dom().is_empty()
        &&& self.copies@.dom().is_empty()
        &&& self.equals@.len() == 0
        &&& self.answers@.len() == 0
        &&& self.actions@.len() == 0
        &&& self.dictionaries@.dom().is_empty()
    }

    /// No objects, and nothing to do.
    pub fn new(classes: KnownClasses) -> (r: ObjC)
        ensures
            r.classes == classes,
            r.fresh(),
    {
        ObjC {
            host_objects: Vec::new(),
            classes,
            hashes: HashMap::new(),
            copies: HashMap::new(),
            equals: Vec::new(),
            answers: Vec::new(),
            actions: Vec::new(),
            dictionaries: HashMap::new(),
        }
    }

    /// Where the object stands in the list.
    fn host_object_index(&self, object: id) -> (r: Option<usize>)
        ensures
            r is Some <==> self.has_host_object(object),
            r matches Some(i) ==> i < self.host_objects@.len() && self.host_objects@[i as int]
                == object,
    {
        let n: usize = self.host_objects.len();
        let mut i: usize = 0;
        while i < n
            invariant
                i <= n == self.host_objects@.len(),
                forall|k: int| 0 <= k < i ==> self.host_objects@[k] != object,
            decreases n - i,
        {
            if self.host_objects[i] == object {
                return Some(i);
            }
            i = i + 1;
        }
        None
    }

    pub fn is_host_object(&self, object: id) -> (r: bool)
        ensures
            r == self.has_host_object(object),
    {
        self.host_object_index(object).is_some()
    }

    /// The object is no longer one of `before`.
    pub open spec fn forgot(&self, before: ObjC, object: id) -> bool {
        &&& *self == ObjC { host_objects: self.host_objects, ..before }
        &&& exists|k: int|
            0 <= k < before.host_objects@.len() && before.host_objects@[k] == object
                && self.host_objects@ == #[trigger] before.host_objects@.remove(k)
    }

    /// Drops the object's state on the host, and frees its memory.
    pub fn dealloc_object(&mut self, object: id, mem: &mut Mem)
        requires
            old(self).has_host_object(object),
            old(mem).wf(),
        ensures
            final(mem).wf(),
            final(self).forgot(*old(self), object),
            final(mem).released(*old(mem), object),
    {
        match self.host_object_index(object) {
            Some(i) => {
                self.host_objects.remove(i);
            },
            None => {},
        }
        mem.free(object);
    }

    /// This is `before` with a new object.
    pub open spec fn made(&self, before: ObjC, object: id) -> bool {
        &&& *self == ObjC { host_objects: self.host_objects, ..before }
        &&& self.host_objects@ == before.host_objects@.push(object)
    }

    /// Makes an object of a class: a word that names the class.
    pub fn alloc_object(&mut self, class: id, mem: &mut Mem) -> (r: id)
        requires
            old(mem).wf(),
            old(mem).has_room(4),
        ensures
            final(mem).wf(),
            r != nil,
            final(self).made(*old(self), r),
            final(mem).placed(*old(mem), r, le_bytes(class as int, 4)),
    {
        let word: Vec<u8> = vec![
            (class % 0x100) as u8,
            (class / 0x100 % 0x100) as u8,
            (class / 0x1_0000 % 0x100) as u8,
            (class / 0x100_0000) as u8,
        ];
        proof {
            lemma_le_bytes_4(class as int);
            assert(word@ =~= le_bytes(class as int, 4));
        }
        let object: u32 = mem.alloc_and_write(&word);
        self.host_objects.push(object);
        object
    }

    pub fn get_hash(&self, object: id) -> (r: u32)
        requires
            self.hash_known(object),
        ensures
            r == self.hash_of(object),
    {
        if object == nil {
            return 0;
        }
        match self.hashes.get(&object) {
            Some(h) => *h,
            None => 0,
        }
    }

    pub fn get_copy(&self, object: id) -> (r: id)
        requires
            self.copy_known(object),
        ensures
            r == self.copy_of(object),
    {
        if object == nil {
            return nil;
        }
        match self.copies.get(&object) {
            Some(c) => *c,
            None => nil,
        }
    }

    pub fn check_equal(&self, receiver: id, argument: id) -> (r: bool)
        ensures
            r == self.is_equal(receiver, argument),
    {
        let n: usize = self.equals.len();
        let mut i: usize = 0;
        while i < n
            invariant
                i <= n == self.equals@.len(),
                forall|k: int|
                    0 <= k < i ==> self.equals@[k] != (EqualPair { receiver, argument }),
            decreases n - i,
        {
            if self.equals[i].receiver == receiver && self.equals[i].argument == argument {
                assert(self.equals@[i as int] == EqualPair { receiver, argument });
                return true;
            }
            i = i + 1;
        }
        false
    }

    pub fn get_answer(&self, func: GuestFunction, arg0: u32, arg1: u32) -> (r: Option<u32>)
        ensures
            r == self.answer(func, arg0, arg1),
    {
        let n: usize = self.answers.len();
        let mut i: usize = 0;
        while i < n
            invariant
                i <= n == self.answers@.len(),
                answer_from(self.answers@, func, arg0, arg1, 0) == answer_from(
                    self.answers@,
                    func,
                    arg0,
                    arg1,
                    i as int,
                ),
            decreases n - i,
        {
            let a: GuestAnswer = self.answers[i];
            if a.func == func && a.arg0 == arg0 && a.arg1 == arg1 {
                return Some(a.ret);
            }
            i = i + 1;
        }
        None
    }

    /// Adds an action to the list.
    pub fn act(&mut self, action: Action)
        ensures
            final(self).acted(*old(self), seq![action]),
    {
        self.actions.push(action);
        assert(self.actions@ =~= old(self).actions@ + seq![action]);
    }
}

/// A call of a guest function that may be null, with one argument.
pub open spec fn calls1(func: GuestFunction, a: u32) -> Seq<Action> {
    if func == 0 {
        Seq::empty()
    } else {
        seq![Action::Call1(func, a)]
    }
}

/// A call of a guest function that may be null, with three arguments.
pub open spec fn calls3(func: GuestFunction, a: u32, b: u32, c: u32) -> Seq<Action> {
    if func == 0 {
        Seq::empty()
    } else {
        seq![Action::Call3(func, a, b, c)]
    }
}

/// Nothing is retained or released of the null object.
pub open spec fn retains(object: id) -> Seq<Action> {
    if object == nil {
        Seq::empty()
    } else {
        seq![Action::Retain(object)]
    }
}

/// Nothing is retained or released of the null object.
pub open spec fn releases(object: id) -> Seq<Action> {
    if object == nil {
        Seq::empty()
    } else {
        seq![Action::Release(object)]
    }
}

impl ObjC {
    /// Retains an object, unless it is null.
    pub fn retain(&mut self, object: id)
        ensures
            final(self).acted(*old(self), retains(object)),
    {
        if object != nil {
            self.act(Action::Retain(object));
        } else {
            assert(self.actions@ + Seq::<Action>::empty() =~= self.actions@);
        }
    }

    /// Releases an object, unless it is null.
    pub fn release(&mut self, object: id)
        ensures
            final(self).acted(*old(self), releases(object)),
    {
        if object != nil {
            self.act(Action::Release(object));
        } else {
            assert(self.actions@ + Seq::<Action>::empty() =~= self.actions@);
        }
    }

    /// Calls a guest function with one argument, unless it is null.
    pub fn call1(&mut self, func: GuestFunction, a: u32)
        ensures
            final(self).acted(*old(self), calls1(func, a)),
    {
        if func != 0 {
            self.act(Action::Call1(func, a));
        } else {
            assert(self.actions@ + Seq::<Action>::empty() =~= self.actions@);
        }
    }

    /// Calls a guest function with three arguments, unless it is null.
    pub fn call3(&mut self, func: GuestFunction, a: u32, b: u32, c: u32)
        ensures
            final(self).acted(*old(self), calls3(func, a, b, c)),
    {
        if func != 0 {
            self.act(Action::Call3(func, a, b, c));
        } else {
            assert(self.actions@ + Seq::<Action>::empty() =~= self.actions@);
        }
    }
}

} // verus!

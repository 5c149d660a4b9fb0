//! The heap in guest memory: lowest fitting address first.
use vstd::prelude::*;

use crate::mem::{
    chunks_wf, free_space, heap_size, overlay, Chunk, ConstPtr, GuestUSize, Mem, MutPtr, MutVoidPtr,
    HEAP_BASE,
};

verus! {

/// What a chunk is grown or shrunk to: the request rounded up to the heap's
/// grain, and never nothing.
pub fn round_heap_size(size: GuestUSize) -> (r: u64)
    ensures
        r == heap_size(size as int),
        r >= size,
        r > 0,
        r % 16 == 0,
        r <= 0x1_0000_0000,
{
    if size == 0 {
        16
    } else {
        (size as u64 + 15) / 16 * 16
    }
}

/// A chunk that is handed out touches no chunk that was live before.
pub proof fn law_alloc_disjoint(before: Mem, after: Mem, ptr: u32, size: u32, i: int)
    requires
        before.wf(),
        before.fits(ptr as int, size as int),
        after.chunk_added(before, ptr, size as int),
        0 <= i < before.chunks@.len(),
    ensures
        ptr + heap_size(size as int) <= before.chunks@[i].base || before.chunks@[i].base
            + before.chunks@[i].size <= ptr,
{
}

/// Freeing what was just allocated brings the heap back.
pub proof fn law_alloc_free(before: Mem, after: Mem, freed: Mem, ptr: u32, size: u32)
    requires
        before.wf(),
        after.wf(),
        before.fits(ptr as int, size as int),
        after.chunk_added(before, ptr, size as int),
        freed.chunk_removed(after, ptr),
    ensures
        freed.chunks@ == before.chunks@,
{
    let c = Chunk { base: ptr, size: heap_size(size as int) as u32 };
    let k = choose|k: int|
        0 <= k <= before.chunks@.len() && after.chunks@ == #[trigger] before.chunks@.insert(k, c);
    let j = choose|j: int|
        0 <= j < after.chunks@.len() && after.chunks@[j].base == ptr && freed.chunks@
            == #[trigger] after.chunks@.remove(j);
    assert(after.chunks@[k] == c);
    assert(j == k);
    assert(freed.chunks@ =~= before.chunks@);
}

/// An allocation at or before `a` leaves all but its own size of the free space
/// at `a`.
pub proof fn lemma_room_left(before: Mem, after: Mem, ptr: u32, size: int, a: int, n: int)
    requires
        before.wf(),
        0 <= size <= u32::MAX,
        free_space(before.chunks@, before@.len() as int, a, n),
        after.chunk_added(before, ptr, size),
        after@.len() == before@.len(),
        ptr + heap_size(size) <= before@.len(),
        ptr <= a,
        heap_size(size) <= n,
    ensures
        free_space(after.chunks@, after@.len() as int, a + heap_size(size), n - heap_size(size)),
{
    let c = Chunk { base: ptr, size: heap_size(size) as u32 };
    let k = choose|k: int|
        0 <= k <= before.chunks@.len() && after.chunks@ == #[trigger] before.chunks@.insert(k, c);
    assert forall|i: int|
        #![trigger after.chunks@[i]]
        0 <= i < after.chunks@.len() implies a + n <= after.chunks@[i].base || after.chunks@[i].base
        + after.chunks@[i].size <= a + heap_size(size) by {
        if i < k {
            assert(after.chunks@[i] == before.chunks@[i]);
        } else if i == k {
            assert(after.chunks@[i] == c);
        } else {
            assert(after.chunks@[i] == before.chunks@[i - 1]);
        }
    }
}

/// After the first of two chunks there is room for the second.
pub proof fn lemma_second_room(before: Mem, after: Mem, ptr: u32, n: int, m: int)
    requires
        before.has_rooms(n, m),
        before.fits(ptr as int, n),
        forall|a: int| #[trigger] before.fits(a, n) ==> ptr <= a,
        after.chunk_added(before, ptr, n),
        after@.len() == before@.len(),
    ensures
        after.has_room(m),
{
    let mid = Mem { bytes: before.bytes, chunks: after.chunks };
    assert(mid.taken(before, ptr, n));
    let a = choose|a: int| #[trigger] mid.fits(a, m);
    assert(after.fits(a, m));
}

/// Freeing a chunk leaves what was free.
pub proof fn lemma_room_kept(before: Mem, after: Mem, ptr: u32, a: int, n: int)
    requires
        free_space(before.chunks@, before@.len() as int, a, n),
        after.chunk_removed(before, ptr),
        after@.len() == before@.len(),
    ensures
        free_space(after.chunks@, after@.len() as int, a, n),
{
    let k = choose|k: int|
        0 <= k < before.chunks@.len() && before.chunks@[k].base == ptr && after.chunks@
            == #[trigger] before.chunks@.remove(k);
    assert forall|i: int|
        #![trigger after.chunks@[i]]
        0 <= i < after.chunks@.len() implies a + n <= after.chunks@[i].base || after.chunks@[i].base
        + after.chunks@[i].size <= a by {
        let b = before.chunks@[if i < k {
            i
        } else {
            i + 1
        }];
        assert(after.chunks@[i] == b);
    }
}

/// A chunk that was freed is free space.
pub proof fn lemma_freed_room(before: Mem, after: Mem, ptr: u32, size: u32)
    requires
        before.wf(),
        before.chunks@.contains((Chunk { base: ptr, size })),
        after.chunk_removed(before, ptr),
        after@.len() == before@.len(),
    ensures
        free_space(after.chunks@, after@.len() as int, ptr as int, size as int),
{
    let c = Chunk { base: ptr, size };
    let j = choose|j: int| 0 <= j < before.chunks@.len() && before.chunks@[j] == c;
    let k = choose|k: int|
        0 <= k < before.chunks@.len() && before.chunks@[k].base == ptr && after.chunks@
            == #[trigger] before.chunks@.remove(k);
    assert(before.chunks@[j] == c);
    assert(j == k);
    assert forall|i: int|
        #![trigger after.chunks@[i]]
        0 <= i < after.chunks@.len() implies ptr + size <= after.chunks@[i].base
        || after.chunks@[i].base + after.chunks@[i].size <= ptr by {
        let b = before.chunks@[if i < k {
            i
        } else {
            i + 1
        }];
        assert(after.chunks@[i] == b);
    }
}

/// A new chunk is live, and so is every chunk that was live before.
pub proof fn lemma_chunk_added(before: Mem, after: Mem, ptr: u32, size: int)
    requires
        after.chunk_added(before, ptr, size),
    ensures
        after.chunks@.contains((Chunk { base: ptr, size: heap_size(size) as u32 })),
        after.allocated(ptr as int),
        forall|c: Chunk| before.chunks@.contains(c) ==> #[trigger] after.chunks@.contains(c),
        forall|a: int| before.allocated(a) ==> #[trigger] after.allocated(a),
{
    let c = Chunk { base: ptr, size: heap_size(size) as u32 };
    let k = choose|k: int|
        0 <= k <= before.chunks@.len() && after.chunks@ == #[trigger] before.chunks@.insert(k, c);
    assert(after.chunks@[k] == c);
    assert forall|d: Chunk| before.chunks@.contains(d) implies #[trigger] after.chunks@.contains(
        d,
    ) by {
        let i = choose|i: int| 0 <= i < before.chunks@.len() && before.chunks@[i] == d;
        assert(after.chunks@[if i < k {
            i
        } else {
            i + 1
        }] == d);
    }
    assert forall|a: int| before.allocated(a) implies #[trigger] after.allocated(a) by {
        let i = choose|i: int|
            0 <= i < before.chunks@.len() && (#[trigger] before.chunks@[i]).base == a;
        assert(after.chunks@[if i < k {
            i
        } else {
            i + 1
        }].base == a);
    }
}

/// Every chunk but the one that is freed stays.
pub proof fn lemma_chunk_removed(before: Mem, after: Mem, ptr: u32)
    requires
        after.chunk_removed(before, ptr),
    ensures
        forall|c: Chunk|
            before.chunks@.contains(c) && c.base != ptr ==> #[trigger] after.chunks@.contains(c),
        forall|a: int| before.allocated(a) && a != ptr ==> #[trigger] after.allocated(a),
{
    let k = choose|k: int|
        0 <= k < before.chunks@.len() && before.chunks@[k].base == ptr && after.chunks@
            == #[trigger] before.chunks@.remove(k);
    assert forall|d: Chunk|
        before.chunks@.contains(d) && d.base != ptr implies #[trigger] after.chunks@.contains(d) by {
        let i = choose|i: int| 0 <= i < before.chunks@.len() && before.chunks@[i] == d;
        assert(after.chunks@[if i < k {
            i
        } else {
            i - 1
        }] == d);
    }
    assert forall|a: int| before.allocated(a) && a != ptr implies #[trigger] after.allocated(a) by {
        let i = choose|i: int|
            0 <= i < before.chunks@.len() && (#[trigger] before.chunks@[i]).base == a;
        assert(after.chunks@[if i < k {
            i
        } else {
            i - 1
        }].base == a);
    }
}

impl Mem {
    /// The heap has room for a chunk of `n` bytes, and then for one of `m`.
    pub open spec fn has_rooms(&self, n: int, m: int) -> bool {
        &&& self.has_room(n)
        &&& forall|mid: Mem, ptr: u32| #[trigger] mid.taken(*self, ptr, n) ==> mid.has_room(m)
    }

    /// Hands out the lowest free address with room for `size` bytes, or null
    /// where there is none.
    pub fn allocate(&mut self, size: GuestUSize) -> (r: MutVoidPtr)
        requires
            old(self).wf(),
        ensures
            final(self).wf(),
            final(self).bytes == old(self).bytes,
            r == 0 <==> !old(self).has_room(size as int),
            r == 0 ==> *final(self) == *old(self),
            r != 0 ==> {
                &&& old(self).fits(r as int, size as int)
                &&& final(self).chunk_added(*old(self), r, size as int)
                &&& forall|a: int| #[trigger] old(self).fits(a, size as int) ==> r <= a
                &&& final(self).allocated(r as int)
                &&& final(self).valid(r as int, size as int)
            },
    {
        let need: u64 = round_heap_size(size);
        let n: usize = self.chunks.len();
        let len: u64 = self.bytes.len() as u64;
        let mut cursor: u64 = HEAP_BASE as u64;
        let mut i: usize = 0;
        while i < n && cursor + need > self.chunks[i].base as u64
            invariant
                i <= n == self.chunks@.len(),
                *self == *old(self),
                self.wf(),
                len == self.bytes@.len(),
                need == heap_size(size as int),
                need <= 0x1_0000_0000,
                need % 16 == 0,
                HEAP_BASE <= cursor <= 0xffff_ffff,
                cursor % 16 == 0,
                forall|k: int|
                    #![trigger self.chunks@[k]]
                    0 <= k < i ==> self.chunks@[k].base + self.chunks@[k].size <= cursor,
                forall|a: int| #[trigger] self.fits(a, size as int) ==> cursor <= a,
            decreases n - i,
        {
            assert forall|a: int| #[trigger] self.fits(a, size as int) implies self.chunks@[i
                as int].base + self.chunks@[i as int].size <= a by {
                assert(cursor <= a);
                let c = self.chunks@[i as int];
            }
            cursor = self.chunks[i].base as u64 + self.chunks[i].size as u64;
            i = i + 1;
        }
        if cursor + need > len {
            proof {
                assert forall|a: int| !#[trigger] self.fits(a, size as int) by {
                    if self.fits(a, size as int) {
                        assert(cursor <= a);
                    }
                }
            }
            return 0;
        }
        let ptr: u32 = cursor as u32;
        assert(self.fits(ptr as int, size as int)) by {
            assert forall|k: int|
                #![trigger self.chunks@[k]]
                0 <= k < n implies ptr + need <= self.chunks@[k].base || self.chunks@[k].base
                + self.chunks@[k].size <= ptr by {
                if k >= i {
                    assert(self.chunks@[i as int].base <= self.chunks@[k].base);
                }
            }
        }
        assert(need <= 0xffff_ffff);
        self.chunks.insert(i, Chunk { base: ptr, size: need as u32 });
        proof {
            let before = old(self).chunks@;
            let c = Chunk { base: ptr, size: need as u32 };
            assert(self.chunks@ == before.insert(i as int, c));
            assert(self.chunks@[i as int] == c);
            assert forall|j: int| 0 <= j < self.chunks@.len() implies (#[trigger] self.chunks@[j])
                == (if j < i {
                before[j]
            } else if j == i {
                c
            } else {
                before[j - 1]
            }) by {}
            assert(chunks_wf(self.chunks@, len as int)) by {
                assert forall|j: int, k: int|
                    #![trigger self.chunks@[j], self.chunks@[k]]
                    0 <= j < k < self.chunks@.len() implies self.chunks@[j].base
                    + self.chunks@[j].size <= self.chunks@[k].base by {
                    if j == i {
                        assert(before[i as int].base <= before[k - 1].base);
                    }
                }
            }
        }
        ptr
    }

    /// Where the chunk at `ptr` stands in the list.
    fn chunk_index(&self, ptr: ConstPtr) -> (r: Option<usize>)
        ensures
            r is Some <==> self.allocated(ptr as int),
            r matches Some(i) ==> i < self.chunks@.len() && self.chunks@[i as int].base == ptr,
    {
        let n: usize = self.chunks.len();
        let mut i: usize = 0;
        while i < n
            invariant
                i <= n == self.chunks@.len(),
                forall|k: int| 0 <= k < i ==> (#[trigger] self.chunks@[k]).base != ptr,
            decreases n - i,
        {
            if self.chunks[i].base == ptr {
                return Some(i);
            }
            i = i + 1;
        }
        None
    }

    pub fn is_known_allocation(&self, ptr: ConstPtr) -> (r: bool)
        ensures
            r == self.allocated(ptr as int),
    {
        self.chunk_index(ptr).is_some()
    }

    pub fn is_in_chunk(&self, ptr: ConstPtr) -> (r: bool)
        ensures
            r == self.in_chunk(ptr as int),
    {
        let n: usize = self.chunks.len();
        let mut i: usize = 0;
        while i < n
            invariant
                i <= n == self.chunks@.len(),
                forall|k: int|
                    0 <= k < i ==> !((#[trigger] self.chunks@[k]).base <= ptr
                        < self.chunks@[k].base + self.chunks@[k].size),
            decreases n - i,
        {
            let base: u64 = self.chunks[i].base as u64;
            let size: u64 = self.chunks[i].size as u64;
            if base <= ptr as u64 && (ptr as u64) < base + size {
                assert(self.chunks@[i as int].base <= ptr);
                return true;
            }
            i = i + 1;
        }
        false
    }

    /// The number of bytes that the chunk at `ptr` holds.
    pub fn malloc_size(&self, ptr: ConstPtr) -> (r: GuestUSize)
        requires
            self.wf(),
            self.allocated(ptr as int),
        ensures
            self.chunks@.contains((Chunk { base: ptr, size: r })),
    {
        let i: usize = self.chunk_index(ptr).unwrap();
        assert(self.chunks@[i as int] == Chunk { base: ptr, size: self.chunks@[i as int].size });
        self.chunks[i].size
    }

    /// The chunk at `ptr` was given back, if there was one.
    pub open spec fn released(&self, before: Mem, ptr: u32) -> bool {
        if before.allocated(ptr as int) {
            &&& self.bytes == before.bytes
            &&& self.chunk_removed(before, ptr)
        } else {
            *self == before
        }
    }

    /// This memory is `before` with a new chunk of `size` bytes at `ptr`, the
    /// lowest address that has room.
    pub open spec fn taken(&self, before: Mem, ptr: u32, size: int) -> bool {
        &&& self.bytes == before.bytes
        &&& before.fits(ptr as int, size)
        &&& forall|a: int| #[trigger] before.fits(a, size) ==> ptr <= a
        &&& self.chunk_added(before, ptr, size)
    }

    /// Gives the chunk at `ptr` back. A pointer to no chunk is left alone.
    pub fn free(&mut self, ptr: MutVoidPtr)
        requires
            old(self).wf(),
        ensures
            final(self).wf(),
            final(self).bytes == old(self).bytes,
            final(self).released(*old(self), ptr),
            !final(self).allocated(ptr as int),
    {
        let i: usize = match self.chunk_index(ptr) {
            Some(i) => i,
            None => {
                return;
            },
        };
        self.chunks.remove(i);
        proof {
            let before = old(self).chunks@;
            assert(self.chunks@ == before.remove(i as int));
            assert forall|j: int| 0 <= j < self.chunks@.len() implies (#[trigger] self.chunks@[j])
                == (if j < i {
                before[j]
            } else {
                before[j + 1]
            }) by {}
            assert forall|j: int| 0 <= j < self.chunks@.len() implies (#[trigger] self.chunks@[j]).base
                != ptr by {
                if j < i {
                    assert(before[j].base + before[j].size <= before[i as int].base);
                } else {
                    assert(before[i as int].base + before[i as int].size <= before[j + 1].base);
                }
            }
        }
    }

    /// Fills `n` bytes with zeros.
    pub fn zero_bytes(&mut self, ptr: MutPtr, n: GuestUSize)
        requires
            old(self).valid(ptr as int, n as int),
            old(self).wf(),
        ensures
            final(self).stored(*old(self), ptr as int, Seq::new(n as nat, |i: int| 0u8)),
            final(self).wf(),
    {
        let mut data: Vec<u8> = Vec::new();
        data.resize(n as usize, 0);
        assert(data@ =~= Seq::new(n as nat, |i: int| 0u8));
        self.write_bytes(ptr, &data);
    }

    /// Like `allocate`, and the bytes that were asked for are zero.
    pub fn calloc(&mut self, size: GuestUSize) -> (r: MutVoidPtr)
        requires
            old(self).wf(),
        ensures
            final(self).wf(),
            r == 0 <==> !old(self).has_room(size as int),
            r == 0 ==> *final(self) == *old(self),
            r != 0 ==> {
                &&& old(self).fits(r as int, size as int)
                &&& final(self).chunk_added(*old(self), r, size as int)
                &&& forall|a: int| #[trigger] old(self).fits(a, size as int) ==> r <= a
                &&& final(self)@ == overlay(
                    old(self)@,
                    r as int,
                    Seq::new(size as nat, |i: int| 0u8),
                )
            },
    {
        let r: u32 = self.allocate(size);
        if r != 0 {
            self.zero_bytes(r, size);
        }
        r
    }

    /// This memory is `before` with a new chunk at `ptr`, the lowest address
    /// that has room, and `data` in it.
    pub open spec fn placed(&self, before: Mem, ptr: u32, data: Seq<u8>) -> bool {
        let n = data.len() as int;
        &&& before.fits(ptr as int, n)
        &&& forall|a: int| #[trigger] before.fits(a, n) ==> ptr <= a
        &&& self.chunk_added(before, ptr, n)
        &&& self@ == overlay(before@, ptr as int, data)
    }

    /// Puts `data` into a new chunk.
    pub fn alloc_and_write(&mut self, data: &Vec<u8>) -> (r: MutPtr)
        requires
            old(self).wf(),
            data@.len() <= 0xffff_ffff,
            old(self).has_room(data@.len() as int),
        ensures
            final(self).wf(),
            final(self).placed(*old(self), r, data@),
            r != 0,
    {
        let r: u32 = self.allocate(data.len() as u32);
        self.write_bytes(r, data);
        r
    }

    /// Puts `data` and a NUL into a new chunk.
    pub fn alloc_and_write_cstr(&mut self, data: &Vec<u8>) -> (r: MutPtr)
        requires
            old(self).wf(),
            data@.len() < 0xffff_ffff,
            old(self).has_room(data@.len() as int + 1),
        ensures
            final(self).wf(),
            final(self).placed(*old(self), r, data@.push(0)),
            r != 0,
    {
        let r: u32 = self.allocate(data.len() as u32 + 1);
        self.write_cstr(r, data);
        r
    }

    /// Makes the chunk at `ptr` hold at least `size` bytes. A chunk that is
    /// large enough stays. Otherwise a new one is handed out, the contents are
    /// copied and the old one is freed; without room the old one is kept and
    /// null comes back.
    pub fn realloc(&mut self, ptr: MutVoidPtr, size: GuestUSize) -> (r: MutVoidPtr)
        requires
            old(self).wf(),
            old(self).allocated(ptr as int),
        ensures
            final(self).wf(),
            exists|old_size: u32| #[trigger]
                old(self).chunks@.contains((Chunk { base: ptr, size: old_size })) && (if old_size
                    >= size {
                    r == ptr && *final(self) == *old(self)
                } else if !old(self).has_room(size as int) {
                    r == 0 && *final(self) == *old(self)
                } else {
                    &&& old(self).fits(r as int, size as int)
                    &&& forall|a: int| #[trigger] old(self).fits(a, size as int) ==> r <= a
                    &&& final(self)@ == overlay(
                        old(self)@,
                        r as int,
                        old(self)@.subrange(ptr as int, ptr + old_size),
                    )
                    &&& exists|mid: Mem|
                        #![trigger mid.chunk_added(*old(self), r, size as int)]
                        mid.chunk_added(*old(self), r, size as int) && final(self).chunk_removed(mid, ptr)
                }),
    {
        let old_size: u32 = self.malloc_size(ptr);
        if old_size >= size {
            return ptr;
        }
        proof {
            let i = choose|i: int|
                0 <= i < self.chunks@.len() && self.chunks@[i] == (Chunk {
                    base: ptr,
                    size: old_size,
                });
            assert(self.chunks@[i].base == ptr);
        }
        let r: u32 = self.allocate(size);
        if r == 0 {
            return 0;
        }
        let ghost mid = *self;
        let data: Vec<u8> = self.bytes_at(ptr, old_size);
        self.write_bytes(r, &data);
        proof {
            let before = old(self).chunks@;
            let c = Chunk { base: r, size: heap_size(size as int) as u32 };
            let k = choose|k: int|
                0 <= k <= before.len() && mid.chunks@ == #[trigger] before.insert(k, c);
            let i = choose|i: int| 0 <= i < before.len() && (#[trigger] before[i]).base == ptr;
            if i < k {
                assert(mid.chunks@[i].base == ptr);
            } else {
                assert(mid.chunks@[i + 1].base == ptr);
            }
            assert(self.allocated(ptr as int));
        }
        self.free(ptr);
        r
    }
}

} // verus!

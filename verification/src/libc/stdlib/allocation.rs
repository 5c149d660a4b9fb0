//! `malloc` and its relatives.
use vstd::arithmetic::power2::{lemma_pow2_strictly_increases, lemma_pow2_unfold, pow2};
use vstd::prelude::*;

use crate::environment::Environment;
use crate::heap::lemma_chunk_added;
use crate::libc::errno::{set_errno, EINVAL, ENOMEM};
use crate::mem::{
    heap_size, le_bytes, le_u32, overlay, Chunk, ConstVoidPtr, GuestUSize, Mem, MutPtr, MutVoidPtr,
};
use crate::objc::id;

verus! {

/// The heap's grain, which every chunk's address is a multiple of.
pub const NATURAL_ALIGN: GuestUSize = 16;

/// No more is handed out at once: a larger request is a mistake of the guest.
pub const MALLOC_LIMIT: GuestUSize = 0x2000_0000;

/// The page size that the guest is told.
pub const PAGE_SIZE: GuestUSize = 4096;

/// How much a request of `size` bytes asks for: a size close to the largest is
/// a negative number, of which the absolute value is meant, and nothing is one
/// byte.
pub open spec fn malloc_request(size: int) -> int {
    if size > 0xf000_0000 {
        0x1_0000_0000 - size
    } else if size == 0 {
        1
    } else {
        size
    }
}

/// What `malloc` does.
pub open spec fn malloc_done(before: Environment, after: Environment, size: int, r: int) -> bool {
    let request = malloc_request(size);
    if request > MALLOC_LIMIT || !before.mem.has_room(request) {
        r == 0 && after == before.with_errno(ENOMEM)
    } else {
        &&& r > 0
        &&& after == before.with_errno(0).with_mem(after.mem)
        &&& after.mem.taken(before.mem, r as u32, request)
    }
}

/// `void *malloc(size_t size);`
pub fn malloc(env: &mut Environment, size: GuestUSize) -> (r: MutVoidPtr)
    requires
        old(env).wf(),
    ensures
        final(env).wf(),
        malloc_done(*old(env), *final(env), size as int, r as int),
{
    set_errno(env, 0);
    let request: u32 = if size > 0xf000_0000 {
        0xffff_ffff - size + 1
    } else if size == 0 {
        1
    } else {
        size
    };
    if request > MALLOC_LIMIT {
        set_errno(env, ENOMEM);
        return 0;
    }
    let ptr: u32 = env.mem.allocate(request);
    if ptr == 0 {
        set_errno(env, ENOMEM);
    }
    ptr
}

/// `size_t malloc_size(const void *ptr);`
pub fn malloc_size(env: &mut Environment, ptr: ConstVoidPtr) -> (r: GuestUSize)
    requires
        old(env).wf(),
        old(env).mem.allocated(ptr as int),
    ensures
        *final(env) == *old(env),
        old(env).mem.chunks@.contains((Chunk { base: ptr, size: r })),
{
    env.mem.malloc_size(ptr)
}

/// Nothing is one byte.
pub open spec fn at_least_one(size: int) -> int {
    if size == 0 {
        1
    } else {
        size
    }
}

/// `void *calloc(size_t count, size_t size);`
pub fn calloc(env: &mut Environment, count: GuestUSize, size: GuestUSize) -> (r: MutVoidPtr)
    requires
        old(env).wf(),
        size * count <= u32::MAX,
    ensures
        final(env).wf(),
        ({
            let total = at_least_one(size * count);
            if !old(env).mem.has_room(total) {
                r == 0 && *final(env) == old(env).with_errno(0)
            } else {
                &&& r > 0
                &&& *final(env) == old(env).with_errno(0).with_mem(final(env).mem)
                &&& final(env).mem.placed(
                    old(env).mem,
                    r,
                    Seq::new(total as nat, |i: int| 0u8),
                )
            }
        }),
{
    set_errno(env, 0);
    let product: u32 = size * count;
    let total: u32 = if product == 0 {
        1
    } else {
        product
    };
    env.mem.calloc(total)
}

/// What `NSZoneMalloc` does.
pub open spec fn plain_malloc_done(
    before: Environment,
    after: Environment,
    size: int,
    r: int,
) -> bool {
    if !before.mem.has_room(at_least_one(size)) {
        r == 0 && after == before
    } else {
        &&& r > 0
        &&& after == before.with_mem(after.mem)
        &&& after.mem.taken(before.mem, r as u32, at_least_one(size))
    }
}

pub fn NSZoneMalloc(env: &mut Environment, _zone: id, size: GuestUSize) -> (r: MutVoidPtr)
    requires
        old(env).wf(),
    ensures
        final(env).wf(),
        plain_malloc_done(*old(env), *final(env), size as int, r as int),
{
    let size: u32 = if size == 0 {
        1
    } else {
        size
    };
    env.mem.allocate(size)
}

/// What a change of a chunk's size does. One that is large enough stays;
/// otherwise its contents go to a new one, and without room it is kept and
/// null comes back.
pub open spec fn resize_done(before: Mem, after: Mem, ptr: u32, size: int, r: u32) -> bool {
    exists|old_size: u32| #[trigger]
        before.chunks@.contains((Chunk { base: ptr, size: old_size })) && (if old_size >= size {
            r == ptr && after == before
        } else if !before.has_room(size) {
            r == 0 && after == before
        } else {
            &&& before.fits(r as int, size)
            &&& forall|a: int| #[trigger] before.fits(a, size) ==> r <= a
            &&& after@ == overlay(
                before@,
                r as int,
                before@.subrange(ptr as int, ptr + old_size),
            )
            &&& exists|mid: Mem|
                #![trigger mid.chunk_added(before, r, size)]
                mid.chunk_added(before, r, size) && after.chunk_removed(mid, ptr)
        })
}

pub fn NSZoneRealloc(
    env: &mut Environment,
    _zone: MutVoidPtr,
    ptr: MutVoidPtr,
    size: GuestUSize,
) -> (r: MutVoidPtr)
    requires
        old(env).wf(),
        ptr != 0 ==> old(env).mem.allocated(ptr as int),
    ensures
        final(env).wf(),
        if ptr == 0 {
            plain_malloc_done(*old(env), *final(env), size as int, r as int)
        } else {
            &&& *final(env) == old(env).with_mem(final(env).mem)
            &&& resize_done(
                old(env).mem,
                final(env).mem,
                ptr,
                at_least_one(size as int),
                r,
            )
        },
{
    let size: u32 = if size == 0 {
        1
    } else {
        size
    };
    if ptr == 0 {
        return env.mem.allocate(size);
    }
    env.mem.realloc(ptr, size)
}

pub fn NSZoneFree(env: &mut Environment, _zone: MutVoidPtr, ptr: MutVoidPtr)
    requires
        old(env).wf(),
    ensures
        final(env).wf(),
        *final(env) == old(env).with_mem(final(env).mem),
        final(env).mem.released(old(env).mem, ptr),
{
    env.mem.free(ptr);
}

/// `n` is a power of two.
pub open spec fn is_power_of_two(n: int) -> bool {
    exists|k: nat| n == #[trigger] pow2(k)
}

pub fn check_power_of_two(n: u32) -> (r: bool)
    ensures
        r == is_power_of_two(n as int),
{
    let mut p: u64 = 1;
    let ghost mut k: nat = 0;
    proof {
        vstd::arithmetic::power2::lemma2_to64();
    }
    while p < n as u64
        invariant
            p == pow2(k),
            1 <= p <= 0x1_ffff_ffff,
            forall|j: nat| j < k ==> #[trigger] pow2(j) < n,
        decreases 0x2_0000_0000 - p,
    {
        proof {
            lemma_pow2_unfold(k + 1);
            assert forall|j: nat| j < k + 1 implies #[trigger] pow2(j) < n by {
                if j < k {
                    lemma_pow2_strictly_increases(j, k);
                }
            }
            k = k + 1;
        }
        p = p * 2;
    }
    proof {
        if p != n && is_power_of_two(n as int) {
            let j = choose|j: nat| n == #[trigger] pow2(j);
            if j > k {
                lemma_pow2_strictly_increases(k, j);
            }
        }
    }
    p == n as u64
}

/// The lowest multiple of `alignment` that is not below `n`.
pub open spec fn align_up(n: int, alignment: int) -> int {
    (n + alignment - 1) / alignment * alignment
}

proof fn lemma_align_up(n: int, alignment: int)
    requires
        0 <= n,
        0 < alignment,
    ensures
        n <= align_up(n, alignment) <= n + alignment - 1,
        align_up(n, alignment) % alignment == 0,
{
    let m = n + alignment - 1;
    let q = m / alignment;
    vstd::arithmetic::div_mod::lemma_fundamental_div_mod(m, alignment);
    assert(m == alignment * q + m % alignment);
    assert(0 <= m % alignment < alignment);
    assert(q * alignment == alignment * q) by (nonlinear_arith);
    vstd::arithmetic::div_mod::lemma_mod_multiples_basic(q, alignment);
}

/// The address `raw` of a chunk was stored in the word before the aligned
/// address in it.
pub open spec fn base_noted(before: Mem, after: Mem, raw: u32, alignment: int) -> bool {
    after.stored(before, align_up(raw + 4, alignment) - 4, le_bytes(raw as int, 4))
}

/// What `posix_memalign` does. An alignment that every chunk has is left to
/// `malloc`; for a larger one the address of the chunk is kept in the word
/// before the aligned address.
pub open spec fn memalign_done(
    before: Environment,
    after: Environment,
    memptr: int,
    alignment: int,
    size: int,
    r: int,
) -> bool {
    if memptr == 0 || alignment < 4 || !is_power_of_two(alignment) {
        r == EINVAL && after == before
    } else if alignment <= NATURAL_ALIGN {
        exists|allocated: Environment, p: u32| #[trigger]
            malloc_done(before, allocated, size, p as int) && (if p == 0 {
                r == ENOMEM && after == before
            } else {
                &&& r == 0
                &&& after == allocated.with_mem(after.mem)
                &&& after.mem.stored(allocated.mem, memptr, le_bytes(p as int, 4))
            })
    } else if size + alignment + 4 > u32::MAX || !before.mem.has_room(size + alignment + 4) {
        r == ENOMEM && after == before
    } else {
        exists|raw: u32, allocated: Mem, marked: Mem|
            {
                &&& r == 0
                &&& after == before.with_mem(after.mem)
                &&& #[trigger] allocated.taken(before.mem, raw, size + alignment + 4)
                &&& #[trigger] base_noted(allocated, marked, raw, alignment)
                &&& after.mem.stored(marked, memptr, le_bytes(align_up(raw + 4, alignment), 4))
            }
    }
}

/// `int posix_memalign(void **memptr, size_t alignment, size_t size);`
///
/// `alignment` must be a power of 2 at least as large as a pointer. Returns
/// zero on success, and otherwise an error number. The value of `errno` is not
/// set on errors.
pub fn posix_memalign(
    env: &mut Environment,
    memptr: MutPtr,
    alignment: GuestUSize,
    size: GuestUSize,
) -> (r: i32)
    requires
        old(env).wf(),
        memptr != 0 ==> old(env).mem.valid(memptr as int, 4),
    ensures
        final(env).wf(),
        memalign_done(
            *old(env),
            *final(env),
            memptr as int,
            alignment as int,
            size as int,
            r as int,
        ),
        r == 0 ==> memptr != 0,
{
    if memptr == 0 {
        return EINVAL;
    }
    if alignment < 4 || !check_power_of_two(alignment) {
        return EINVAL;
    }
    if alignment <= NATURAL_ALIGN {
        let errno: i32 = env.libc_state.errno.value;
        let p: u32 = malloc(env, size);
        let ghost allocated = *env;
        assert(malloc_done(*old(env), allocated, size as int, p as int));
        if p == 0 {
            set_errno(env, errno);
            return ENOMEM;
        }
        env.mem.write_u32(memptr, p);
        return 0;
    }
    let over: u32 = match size.checked_add(alignment) {
        Some(sum) => match sum.checked_add(4) {
            Some(sum) => sum,
            None => {
                return ENOMEM;
            },
        },
        None => {
            return ENOMEM;
        },
    };
    let raw: u32 = env.mem.allocate(over);
    if raw == 0 {
        return ENOMEM;
    }
    let ghost allocated = env.mem;
    proof {
        lemma_align_up(raw + 4, alignment as int);
        assert(heap_size(over as int) >= over);
    }
    let blocks: u32 = (raw + 4 + (alignment - 1)) / alignment;
    assert(blocks * alignment == align_up(raw + 4, alignment as int));
    let aligned: u32 = blocks * alignment;
    env.mem.write_u32(aligned - 4, raw);
    let ghost marked = env.mem;
    env.mem.write_u32(memptr, aligned);
    assert(allocated.taken(old(env).mem, raw, size + alignment + 4));
    assert(base_noted(allocated, marked, raw, alignment as int));
    0
}

/// An address that `posix_memalign` gives is a multiple of the alignment, and
/// lies with all its bytes in the chunk that was taken.
pub proof fn law_memalign_aligned(before: Mem, after: Mem, raw: u32, alignment: int, size: int)
    requires
        before.wf(),
        0 < alignment,
        0 <= size,
        size + alignment + 4 <= u32::MAX,
        after.taken(before, raw, size + alignment + 4),
    ensures
        ({
            let aligned = align_up(raw + 4, alignment);
            &&& aligned % alignment == 0
            &&& raw + 4 <= aligned
            &&& aligned < raw + heap_size(size + alignment + 4)
            &&& aligned + size <= raw + heap_size(size + alignment + 4)
        }),
{
    lemma_align_up(raw + 4, alignment);
    assert(heap_size(size + alignment + 4) >= size + alignment + 4);
}

/// What `valloc` does.
pub open spec fn valloc_done(before: Environment, after: Environment, size: int, r: int) -> bool {
    if !before.mem.has_room(4) {
        r == 0 && after == before
    } else {
        exists|held: Environment, done: Environment, out: u32, rc: int|
            {
                &&& held == before.with_mem(held.mem)
                &&& #[trigger] held.mem.taken(before.mem, out, 4)
                &&& #[trigger] memalign_done(held, done, out as int, PAGE_SIZE as int, size, rc)
                &&& after == done.with_mem(after.mem)
                &&& after.mem.released(done.mem, out)
                &&& r == if rc == 0 {
                    le_u32(done.mem@, out as int)
                } else {
                    0
                }
            }
    }
}

/// `void *valloc(size_t size);`: page-size aligned allocation. Equivalent
/// to `posix_memalign(&p, getpagesize(), size)`.
pub fn valloc(env: &mut Environment, size: GuestUSize) -> (r: MutVoidPtr)
    requires
        old(env).wf(),
    ensures
        final(env).wf(),
        valloc_done(*old(env), *final(env), size as int, r as int),
{
    let out: u32 = env.mem.allocate(4);
    if out == 0 {
        return 0;
    }
    let ghost held = *env;
    assert(held.mem.taken(old(env).mem, out, 4));
    let rc: i32 = posix_memalign(env, out, PAGE_SIZE, size);
    let ghost done = *env;
    assert(memalign_done(held, done, out as int, PAGE_SIZE as int, size as int, rc as int));
    assert(done.mem@.len() == held.mem@.len());
    let ptr: u32 = if rc == 0 {
        env.mem.read_u32(out)
    } else {
        0
    };
    env.mem.free(out);
    ptr
}

/// `void *realloc(void *ptr, size_t size);`
pub fn realloc(env: &mut Environment, ptr: MutVoidPtr, size: GuestUSize) -> (r: MutVoidPtr)
    requires
        old(env).wf(),
        ptr != 0 ==> old(env).mem.allocated(ptr as int),
    ensures
        final(env).wf(),
        if ptr == 0 {
            malloc_done(*old(env), *final(env), size as int, r as int)
        } else {
            &&& *final(env) == old(env).with_errno(0).with_mem(final(env).mem)
            &&& resize_done(
                old(env).mem,
                final(env).mem,
                ptr,
                at_least_one(size as int),
                r,
            )
        },
{
    if ptr == 0 {
        return malloc(env, size);
    }
    set_errno(env, 0);
    let size: u32 = if size == 0 {
        1
    } else {
        size
    };
    env.mem.realloc(ptr, size)
}

/// `void *reallocf(void *ptr, size_t size);`: like `realloc`, but the old chunk
/// is freed where there is no room for a new one.
pub fn reallocf(env: &mut Environment, ptr: MutVoidPtr, size: GuestUSize) -> (r: MutVoidPtr)
    requires
        old(env).wf(),
        ptr != 0 ==> old(env).mem.allocated(ptr as int),
    ensures
        final(env).wf(),
        if ptr == 0 {
            malloc_done(*old(env), *final(env), size as int, r as int)
        } else {
            &&& *final(env) == old(env).with_errno(0).with_mem(final(env).mem)
            &&& exists|mid: Mem| #[trigger]
                resize_done(old(env).mem, mid, ptr, at_least_one(size as int), r) && (if r == 0 {
                    final(env).mem.released(mid, ptr)
                } else {
                    final(env).mem == mid
                })
        },
{
    if ptr == 0 {
        return malloc(env, size);
    }
    set_errno(env, 0);
    let size_or_one: u32 = if size == 0 {
        1
    } else {
        size
    };
    let new_ptr: u32 = env.mem.realloc(ptr, size_or_one);
    let ghost mid = env.mem;
    assert(resize_done(old(env).mem, mid, ptr, at_least_one(size as int), new_ptr));
    if new_ptr == 0 {
        env.mem.free(ptr);
    }
    new_ptr
}

/// The chunk that `addr` was aligned in: the word before `addr` names a chunk
/// around it.
pub open spec fn aligned_in(mem: Mem, addr: int, c: Chunk) -> bool {
    &&& mem.valid(addr - 4, 4)
    &&& mem.chunks@.contains(c)
    &&& c.base == le_u32(mem@, addr - 4)
    &&& c.base < addr < c.base + c.size
}

/// What `free` does to the heap.
pub open spec fn free_done(before: Mem, after: Mem, ptr: u32) -> bool {
    if ptr < 0x1000 || ptr >= 0xfff0_0000 {
        after == before
    } else if before.allocated(ptr as int) {
        after.released(before, ptr)
    } else if exists|c: Chunk| #[trigger] aligned_in(before, ptr as int, c) {
        exists|c: Chunk| #[trigger]
            aligned_in(before, ptr as int, c) && after.released(before, c.base)
    } else {
        after == before
    }
}

/// `void free(void *ptr);`
///
/// An address that `posix_memalign` gave frees the chunk around it. Objects
/// with a state on the host are deallocated, and addresses that no chunk is at
/// are left alone.
pub fn free(env: &mut Environment, ptr: MutVoidPtr)
    requires
        old(env).wf(),
    ensures
        final(env).wf(),
        if old(env).objc.has_host_object(ptr) {
            &&& *final(env) == old(env).with_mem(final(env).mem).with_objc(final(env).objc)
            &&& final(env).objc.forgot(old(env).objc, ptr)
            &&& final(env).mem.released(old(env).mem, ptr)
        } else {
            &&& *final(env) == old(env).with_errno(0).with_mem(final(env).mem)
            &&& free_done(old(env).mem, final(env).mem, ptr)
        },
{
    if env.objc.is_host_object(ptr) {
        env.objc.dealloc_object(ptr, &mut env.mem);
        return;
    }
    set_errno(env, 0);
    if ptr < 0x1000 || ptr >= 0xfff0_0000 {
        return;
    }
    if env.mem.is_known_allocation(ptr) {
        env.mem.free(ptr);
        return;
    }
    if ptr as usize > env.mem.bytes.len() {
        return;
    }
    let raw: u32 = env.mem.read_u32(ptr - 4);
    if raw < ptr && env.mem.is_known_allocation(raw) {
        let size: u32 = env.mem.malloc_size(raw);
        let ghost c = Chunk { base: raw, size };
        if ptr - raw < size {
            assert(aligned_in(env.mem, ptr as int, c));
            env.mem.free(raw);
        } else {
            proof {
                lemma_one_chunk_at(env.mem, c);
            }
        }
    } else {
        proof {
            if exists|c: Chunk| #[trigger] aligned_in(env.mem, ptr as int, c) {
                let c = choose|c: Chunk| #[trigger] aligned_in(env.mem, ptr as int, c);
                let i = choose|i: int|
                    0 <= i < env.mem.chunks@.len() && env.mem.chunks@[i] == c;
                assert(env.mem.chunks@[i].base == raw);
            }
        }
    }
}

/// No two chunks have the same address.
proof fn lemma_one_chunk_at(mem: Mem, c: Chunk)
    requires
        mem.wf(),
        mem.chunks@.contains(c),
    ensures
        forall|d: Chunk| #[trigger] mem.chunks@.contains(d) && d.base == c.base ==> d == c,
{
    let i = choose|i: int| 0 <= i < mem.chunks@.len() && mem.chunks@[i] == c;
    assert forall|d: Chunk| #[trigger] mem.chunks@.contains(d) && d.base == c.base implies d
        == c by {
        let j = choose|j: int| 0 <= j < mem.chunks@.len() && mem.chunks@[j] == d;
        assert(mem.chunks@[i] == c && mem.chunks@[j] == d);
        if i < j {
            assert(mem.chunks@[i].base + mem.chunks@[i].size <= mem.chunks@[j].base);
        } else if j < i {
            assert(mem.chunks@[j].base + mem.chunks@[j].size <= mem.chunks@[i].base);
        }
    }
}

/// Whatever happens to the heap meanwhile, `free` gives back the chunk of an
/// address that `posix_memalign` gave, as long as that chunk is there and the
/// word before the address is left alone.
pub proof fn law_memalign_free(
    before: Mem,
    allocated: Mem,
    marked: Mem,
    later: Mem,
    freed: Mem,
    raw: u32,
    alignment: int,
    size: int,
)
    requires
        before.wf(),
        allocated.wf(),
        0 < alignment,
        0 <= size,
        size + alignment + 4 <= u32::MAX,
        allocated.taken(before, raw, size + alignment + 4),
        base_noted(allocated, marked, raw, alignment),
        later.wf(),
        later.chunks@.contains(
            Chunk { base: raw, size: heap_size(size + alignment + 4) as u32 },
        ),
        later@.len() == marked@.len(),
        ({
            let at = align_up(raw + 4, alignment) - 4;
            later@.subrange(at, at + 4) == marked@.subrange(at, at + 4)
        }),
    ensures
        ({
            let aligned = align_up(raw + 4, alignment);
            let c = Chunk { base: raw, size: heap_size(size + alignment + 4) as u32 };
            &&& !later.allocated(aligned)
            &&& aligned_in(later, aligned, c)
            &&& 0x1000 <= aligned < 0xfff0_0000 && free_done(later, freed, aligned as u32)
                ==> freed.released(later, raw)
        }),
{
    let n = size + alignment + 4;
    let aligned = align_up(raw + 4, alignment);
    let at = aligned - 4;
    let c = Chunk { base: raw, size: heap_size(n) as u32 };
    law_memalign_aligned(before, allocated, raw, alignment, size);
    lemma_chunk_added(before, allocated, raw, n);
    lemma_one_chunk_at(allocated, c);
    crate::mem::law_store_load_u32(allocated@, at, raw);
    assert forall|i: int| at <= i < at + 4 implies later@[i] == marked@[i] by {
        assert(later@.subrange(at, at + 4)[i - at] == marked@.subrange(at, at + 4)[i - at]);
    }
    let k = choose|k: int| 0 <= k < later.chunks@.len() && later.chunks@[k] == c;
    assert(later.chunks@[k] == c);
    if later.allocated(aligned) {
        let i = choose|i: int|
            0 <= i < later.chunks@.len() && (#[trigger] later.chunks@[i]).base == aligned;
        if i < k {
            assert(later.chunks@[i].base + later.chunks@[i].size <= c.base);
        } else if k < i {
            assert(c.base + c.size <= later.chunks@[i].base);
        }
    }
    assert(aligned_in(later, aligned, c));
}

} // verus!

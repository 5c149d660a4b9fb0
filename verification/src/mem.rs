//! Guest memory: a flat little-endian byte array with a first-fit heap.
//!
//! Addresses are 32-bit, and address zero is the null pointer. The heap is a
//! list of live chunks kept in address order; what is not in a chunk is free.
use vstd::prelude::*;
use vstd::utf8::{decode_utf8, valid_utf8};

use crate::text::utf8_string;

verus! {

/// An address in guest memory that may be written through.
pub type MutPtr = u32;

/// An address in guest memory that is only read through.
pub type ConstPtr = u32;

pub type MutVoidPtr = u32;

pub type ConstVoidPtr = u32;

pub type GuestUSize = u32;

pub type GuestISize = i32;

/// The lowest address that the heap hands out.
pub const HEAP_BASE: u32 = 0x1000;

/// What every chunk's address and size are a multiple of.
pub const HEAP_ALIGN: u32 = 16;

/// A live heap allocation.
#[derive(Clone, Copy)]
pub struct Chunk {
    pub base: u32,
    pub size: u32,
}

pub struct Mem {
    pub bytes: Vec<u8>,
    pub chunks: Vec<Chunk>,
}

/// `s` with `data` laid over it from index `at` on.
pub open spec fn overlay(s: Seq<u8>, at: int, data: Seq<u8>) -> Seq<u8> {
    Seq::new(
        s.len(),
        |i: int|
            if at <= i < at + data.len() {
                data[i - at]
            } else {
                s[i]
            },
    )
}

pub open spec fn le_u16(s: Seq<u8>, at: int) -> int {
    s[at] + 0x100 * s[at + 1]
}

pub open spec fn le_u32(s: Seq<u8>, at: int) -> int {
    s[at] + 0x100 * s[at + 1] + 0x1_0000 * s[at + 2] + 0x100_0000 * s[at + 3]
}

/// The value of a 16-bit pattern read as two's complement.
pub open spec fn signed16(v: int) -> int {
    if v >= 0x8000 {
        v - 0x1_0000
    } else {
        v
    }
}

pub open spec fn le_u64(s: Seq<u8>, at: int) -> int {
    le_u32(s, at) + 0x1_0000_0000 * le_u32(s, at + 4)
}

/// The value of a 32-bit pattern read as two's complement.
pub open spec fn signed32(v: int) -> int {
    if v >= 0x8000_0000 {
        v - 0x1_0000_0000
    } else {
        v
    }
}

/// The 32-bit pattern of a two's complement value.
pub open spec fn unsigned32(v: int) -> int {
    if v < 0 {
        v + 0x1_0000_0000
    } else {
        v
    }
}

/// The value of a 64-bit pattern read as two's complement.
pub open spec fn signed64(v: int) -> int {
    if v >= 0x8000_0000_0000_0000 {
        v - 0x1_0000_0000_0000_0000
    } else {
        v
    }
}

/// The 64-bit pattern of a two's complement value.
pub open spec fn unsigned64(v: int) -> int {
    if v < 0 {
        v + 0x1_0000_0000_0000_0000
    } else {
        v
    }
}

/// `v` as `n` bytes, least significant first.
pub open spec fn le_bytes(v: int, n: nat) -> Seq<u8>
    decreases n,
{
    if n == 0 {
        Seq::empty()
    } else {
        seq![(v % 0x100) as u8] + le_bytes(v / 0x100, (n - 1) as nat)
    }
}

/// The number of bytes before the first NUL at or after `at`, or before the
/// end of `s` where there is none.
pub open spec fn cstr_len(s: Seq<u8>, at: int) -> nat
    decreases s.len() - at,
{
    if at < 0 || at >= s.len() || s[at] == 0 {
        0
    } else {
        1 + cstr_len(s, at + 1)
    }
}

/// The bytes of the C string that starts at `at`, without its NUL.
pub open spec fn cstr(s: Seq<u8>, at: int) -> Seq<u8> {
    s.subrange(at, at + cstr_len(s, at))
}

/// A request of `size` bytes as the heap rounds it.
pub open spec fn heap_size(size: int) -> int {
    if size <= 0 {
        HEAP_ALIGN as int
    } else {
        (size + HEAP_ALIGN - 1) / HEAP_ALIGN as int * HEAP_ALIGN
    }
}

pub open spec fn chunks_wf(c: Seq<Chunk>, len: int) -> bool {
    &&& forall|i: int|
        #![trigger c[i]]
        0 <= i < c.len() ==> {
            &&& HEAP_BASE <= c[i].base
            &&& c[i].base % HEAP_ALIGN == 0
            &&& c[i].size % HEAP_ALIGN == 0
            &&& 0 < c[i].size
            &&& c[i].base + c[i].size <= len
        }
    &&& forall|i: int, j: int|
        #![trigger c[i], c[j]]
        0 <= i < j < c.len() ==> c[i].base + c[i].size <= c[j].base
}

/// `[a, a + n)` is heap space that no chunk of `c` touches.
pub open spec fn free_space(c: Seq<Chunk>, len: int, a: int, n: int) -> bool {
    &&& HEAP_BASE <= a
    &&& a % HEAP_ALIGN as int == 0
    &&& a + n <= len
    &&& forall|i: int|
        #![trigger c[i]]
        0 <= i < c.len() ==> a + n <= c[i].base || c[i].base + c[i].size <= a
}

/// The bytes of `v`, least significant first, fit `n` of them.
pub proof fn lemma_le_bytes_len(v: int, n: nat)
    ensures
        le_bytes(v, n).len() == n,
    decreases n,
{
    if n > 0 {
        lemma_le_bytes_len(v / 0x100, (n - 1) as nat);
    }
}

/// Two little-endian bytes, one by one.
pub proof fn lemma_le_bytes_2(v: int)
    ensures
        le_bytes(v, 2) == seq![(v % 0x100) as u8, (v / 0x100 % 0x100) as u8],
{
    reveal_with_fuel(le_bytes, 3);
    assert(le_bytes(v, 2) =~= seq![(v % 0x100) as u8, (v / 0x100 % 0x100) as u8]);
}

/// Four little-endian bytes, one by one.
pub proof fn lemma_le_bytes_4(v: int)
    ensures
        le_bytes(v, 4) == seq![
            (v % 0x100) as u8,
            (v / 0x100 % 0x100) as u8,
            (v / 0x1_0000 % 0x100) as u8,
            (v / 0x100_0000 % 0x100) as u8,
        ],
{
    reveal_with_fuel(le_bytes, 5);
    assert(v / 0x100 / 0x100 == v / 0x1_0000);
    assert(v / 0x100 / 0x100 / 0x100 == v / 0x100_0000);
    assert(le_bytes(v, 4) =~= seq![
        (v % 0x100) as u8,
        (v / 0x100 % 0x100) as u8,
        (v / 0x1_0000 % 0x100) as u8,
        (v / 0x100_0000 % 0x100) as u8,
    ]);
}

/// A 32-bit value that was stored is what is loaded from the same address.
pub proof fn law_store_load_u32(s: Seq<u8>, at: int, v: u32)
    requires
        0 <= at,
        at + 4 <= s.len(),
    ensures
        le_u32(overlay(s, at, le_bytes(v as int, 4)), at) == v,
{
    lemma_le_bytes_4(v as int);
}

/// A store leaves every address outside its range as it was.
pub proof fn law_store_frame(s: Seq<u8>, at: int, data: Seq<u8>, i: int)
    requires
        0 <= i < s.len(),
        i < at || at + data.len() <= i,
    ensures
        overlay(s, at, data)[i] == s[i],
{
}

proof fn lemma_cstr_len_bound(s: Seq<u8>, at: int)
    requires
        0 <= at <= s.len(),
    ensures
        at + cstr_len(s, at) <= s.len(),
        forall|i: int| at <= i < at + cstr_len(s, at) ==> s[i] != 0,
    decreases s.len() - at,
{
    if at < s.len() && s[at] != 0 {
        lemma_cstr_len_bound(s, at + 1);
    }
}

/// A C string that was stored with its NUL is what is read back.
pub proof fn law_store_load_cstr(s: Seq<u8>, at: int, text: Seq<u8>)
    requires
        0 <= at,
        at + text.len() + 1 <= s.len(),
        forall|i: int| 0 <= i < text.len() ==> text[i] != 0,
    ensures
        cstr(overlay(s, at, text.push(0)), at) == text,
{
    let t = overlay(s, at, text.push(0));
    lemma_cstr_len_is(t, at, text.len());
    assert(cstr(t, at) =~= text);
}

/// The length of a C string whose end is known.
pub proof fn lemma_cstr_len_is(s: Seq<u8>, at: int, n: nat)
    requires
        0 <= at,
        at + n <= s.len(),
        at + n < s.len() ==> s[at + n] == 0,
        forall|i: int| at <= i < at + n ==> s[i] != 0,
    ensures
        cstr_len(s, at) == n,
    decreases n,
{
    if n > 0 {
        lemma_cstr_len_is(s, at + 1, (n - 1) as nat);
    }
}

pub fn to_signed16(v: u16) -> (r: i16)
    ensures
        r == signed16(v as int),
{
    if v < 0x8000 {
        v as i16
    } else {
        -((0xffff - v) as i16) - 1
    }
}

pub fn to_signed32(v: u32) -> (r: i32)
    ensures
        r == signed32(v as int),
{
    if v < 0x8000_0000 {
        v as i32
    } else {
        -((0xffff_ffff - v) as i32) - 1
    }
}

pub fn to_unsigned32(v: i32) -> (r: u32)
    ensures
        r == unsigned32(v as int),
{
    if v >= 0 {
        v as u32
    } else {
        0xffff_ffff - ((-(v + 1)) as u32)
    }
}

pub fn to_signed64(v: u64) -> (r: i64)
    ensures
        r == signed64(v as int),
{
    if v < 0x8000_0000_0000_0000 {
        v as i64
    } else {
        -((0xffff_ffff_ffff_ffff - v) as i64) - 1
    }
}

pub fn to_unsigned64(v: i64) -> (r: u64)
    ensures
        r == unsigned64(v as int),
{
    if v >= 0 {
        v as u64
    } else {
        0xffff_ffff_ffff_ffff - ((-(v + 1)) as u64)
    }
}

impl Mem {
    pub open spec fn view(&self) -> Seq<u8> {
        self.bytes@
    }

    pub open spec fn wf(&self) -> bool {
        &&& self.bytes@.len() <= 0xffff_ffff
        &&& chunks_wf(self.chunks@, self.bytes@.len() as int)
    }

    /// `n` bytes from `ptr` on are guest memory, and `ptr` is not null.
    pub open spec fn valid(&self, ptr: int, n: int) -> bool {
        &&& 0 < ptr
        &&& ptr + n <= self@.len()
    }

    /// This memory is `before` with `data` stored at `at`.
    pub open spec fn stored(&self, before: Mem, at: int, data: Seq<u8>) -> bool {
        &&& self@ == overlay(before@, at, data)
        &&& self.chunks == before.chunks
    }

    /// The C string at `ptr`.
    pub open spec fn cstr(&self, ptr: int) -> Seq<u8> {
        cstr(self@, ptr)
    }

    /// A NUL ends the C string at `ptr` inside guest memory.
    pub open spec fn valid_cstr(&self, ptr: int) -> bool {
        self.valid(ptr, cstr_len(self@, ptr) as int + 1)
    }

    /// `ptr` is the address of a live chunk.
    pub open spec fn allocated(&self, ptr: int) -> bool {
        exists|i: int| 0 <= i < self.chunks@.len() && (#[trigger] self.chunks@[i]).base == ptr
    }

    /// `ptr` lies in a live chunk.
    pub open spec fn in_chunk(&self, ptr: int) -> bool {
        exists|i: int|
            0 <= i < self.chunks@.len() && (#[trigger] self.chunks@[i]).base <= ptr
                < self.chunks@[i].base + self.chunks@[i].size
    }

    /// `[a, a + heap_size(size))` could be handed out.
    pub open spec fn fits(&self, a: int, size: int) -> bool {
        free_space(self.chunks@, self@.len() as int, a, heap_size(size))
    }

    /// Some place in the heap has room for `size` bytes.
    pub open spec fn has_room(&self, size: int) -> bool {
        exists|a: int| #[trigger] self.fits(a, size)
    }

    /// This heap is that of `before` with the chunk at `ptr` added.
    pub open spec fn chunk_added(&self, before: Mem, ptr: u32, size: int) -> bool {
        exists|k: int|
            0 <= k <= before.chunks@.len() && self.chunks@ == #[trigger] before.chunks@.insert(
                k,
                (Chunk { base: ptr, size: heap_size(size) as u32 }),
            )
    }

    /// This heap is that of `before` without the chunk at `ptr`.
    pub open spec fn chunk_removed(&self, before: Mem, ptr: u32) -> bool {
        exists|k: int|
            0 <= k < before.chunks@.len() && before.chunks@[k].base == ptr && self.chunks@
                == #[trigger] before.chunks@.remove(k)
    }

    /// `size` bytes of zeroed memory with an empty heap.
    pub fn new(size: u32) -> (r: Mem)
        ensures
            r.wf(),
            r@ == Seq::new(size as nat, |i: int| 0u8),
            r.chunks@.len() == 0,
    {
        let mut bytes: Vec<u8> = Vec::new();
        bytes.resize(size as usize, 0);
        assert(bytes@ =~= Seq::new(size as nat, |i: int| 0u8));
        Mem { bytes, chunks: Vec::new() }
    }

    pub fn read_u8(&self, ptr: ConstPtr) -> (r: u8)
        requires
            self.valid(ptr as int, 1),
        ensures
            r == self@[ptr as int],
    {
        self.bytes[ptr as usize]
    }

    pub fn read_u16(&self, ptr: ConstPtr) -> (r: u16)
        requires
            self.valid(ptr as int, 2),
            self.wf(),
        ensures
            r == le_u16(self@, ptr as int),
    {
        let p: usize = ptr as usize;
        self.bytes[p] as u16 + self.bytes[p + 1] as u16 * 0x100
    }

    pub fn read_u32(&self, ptr: ConstPtr) -> (r: u32)
        requires
            self.valid(ptr as int, 4),
            self.wf(),
        ensures
            r == le_u32(self@, ptr as int),
    {
        let p: usize = ptr as usize;
        self.bytes[p] as u32 + self.bytes[p + 1] as u32 * 0x100 + self.bytes[p + 2] as u32
            * 0x1_0000 + self.bytes[p + 3] as u32 * 0x100_0000
    }

    pub fn read_i32(&self, ptr: ConstPtr) -> (r: i32)
        requires
            self.valid(ptr as int, 4),
            self.wf(),
        ensures
            r == signed32(le_u32(self@, ptr as int)),
    {
        to_signed32(self.read_u32(ptr))
    }

    pub fn read_i64(&self, ptr: ConstPtr) -> (r: i64)
        requires
            self.valid(ptr as int, 8),
            self.wf(),
        ensures
            r == signed64(le_u64(self@, ptr as int)),
    {
        let low: u64 = self.read_u32(ptr) as u64;
        let high: u64 = self.read_u32(ptr + 4) as u64;
        to_signed64(low + high * 0x1_0000_0000)
    }

    pub fn write_u8(&mut self, ptr: MutPtr, value: u8)
        requires
            old(self).valid(ptr as int, 1),
            old(self).wf(),
        ensures
            final(self).stored(*old(self), ptr as int, seq![value]),
            final(self).wf(),
    {
        self.bytes[ptr as usize] = value;
        assert(self@ =~= overlay(old(self)@, ptr as int, seq![value]));
    }

    /// Copies `data` into guest memory.
    pub fn write_bytes(&mut self, ptr: MutPtr, data: &Vec<u8>)
        requires
            old(self).valid(ptr as int, data@.len() as int) || data@.len() == 0,
            old(self).wf(),
        ensures
            final(self).stored(*old(self), ptr as int, data@),
            final(self).wf(),
    {
        let n: usize = data.len();
        let mut i: usize = 0;
        while i < n
            invariant
                i <= n == data@.len(),
                old(self).valid(ptr as int, data@.len() as int) || data@.len() == 0,
                self.chunks == old(self).chunks,
                self@.len() == old(self)@.len() <= 0xffff_ffff,
                self@ =~= overlay(old(self)@, ptr as int, data@.take(i as int)),
            decreases n - i,
        {
            self.bytes[ptr as usize + i] = data[i];
            i = i + 1;
        }
        assert(data@.take(n as int) =~= data@);
    }

    pub fn write_u16(&mut self, ptr: MutPtr, value: u16)
        requires
            old(self).valid(ptr as int, 2),
            old(self).wf(),
        ensures
            final(self).stored(*old(self), ptr as int, le_bytes(value as int, 2)),
            final(self).wf(),
    {
        let data: Vec<u8> = vec![(value % 0x100) as u8, (value / 0x100) as u8];
        proof {
            lemma_le_bytes_2(value as int);
            assert(data@ =~= le_bytes(value as int, 2));
        }
        self.write_bytes(ptr, &data);
    }

    pub fn write_u32(&mut self, ptr: MutPtr, value: u32)
        requires
            old(self).valid(ptr as int, 4),
            old(self).wf(),
        ensures
            final(self).stored(*old(self), ptr as int, le_bytes(value as int, 4)),
            final(self).wf(),
    {
        let data: Vec<u8> = vec![
            (value % 0x100) as u8,
            (value / 0x100 % 0x100) as u8,
            (value / 0x1_0000 % 0x100) as u8,
            (value / 0x100_0000) as u8,
        ];
        proof {
            lemma_le_bytes_4(value as int);
            assert(data@ =~= le_bytes(value as int, 4));
        }
        self.write_bytes(ptr, &data);
    }

    pub fn write_i32(&mut self, ptr: MutPtr, value: i32)
        requires
            old(self).valid(ptr as int, 4),
            old(self).wf(),
        ensures
            final(self).stored(*old(self), ptr as int, le_bytes(unsigned32(value as int), 4)),
            final(self).wf(),
    {
        self.write_u32(ptr, to_unsigned32(value));
    }

    /// Stores a 64-bit value as its low half and then its high half.
    pub fn write_u64(&mut self, ptr: MutPtr, value: u64)
        requires
            old(self).valid(ptr as int, 8),
            old(self).wf(),
        ensures
            final(self).stored(*old(self), ptr as int, le_bytes(value as int, 8)),
            final(self).wf(),
    {
        let low: u32 = (value % 0x1_0000_0000) as u32;
        let high: u32 = (value / 0x1_0000_0000) as u32;
        self.write_u32(ptr, low);
        self.write_u32(ptr + 4, high);
        proof {
            lemma_le_bytes_8(value as int);
            lemma_le_bytes_len(value as int, 8);
            lemma_le_bytes_len(low as int, 4);
            lemma_le_bytes_len(high as int, 4);
            assert(self@ =~= overlay(old(self)@, ptr as int, le_bytes(value as int, 8)));
        }
    }

    pub fn write_i64(&mut self, ptr: MutPtr, value: i64)
        requires
            old(self).valid(ptr as int, 8),
            old(self).wf(),
        ensures
            final(self).stored(*old(self), ptr as int, le_bytes(unsigned64(value as int), 8)),
            final(self).wf(),
    {
        self.write_u64(ptr, to_unsigned64(value));
    }

    /// A copy of `n` bytes of guest memory.
    pub fn bytes_at(&self, ptr: ConstPtr, n: GuestUSize) -> (r: Vec<u8>)
        requires
            self.valid(ptr as int, n as int) || n == 0,
            self.wf(),
        ensures
            n > 0 ==> r@ == self@.subrange(ptr as int, ptr + n),
            r@.len() == n,
    {
        let mut r: Vec<u8> = Vec::new();
        let mut i: u32 = 0;
        while i < n
            invariant
                i <= n,
                self.valid(ptr as int, n as int) || n == 0,
                self.wf(),
                r@.len() == i,
                forall|k: int| 0 <= k < i ==> r@[k] == self@[ptr + k],
            decreases n - i,
        {
            r.push(self.bytes[ptr as usize + i as usize]);
            i = i + 1;
        }
        assert(n > 0 ==> r@ =~= self@.subrange(ptr as int, ptr + n));
        r
    }

    /// The length of the C string at `ptr`.
    pub fn cstr_len_at(&self, ptr: ConstPtr) -> (r: u32)
        requires
            self.valid(ptr as int, 0),
            self.wf(),
        ensures
            r == cstr_len(self@, ptr as int),
            ptr + r <= self@.len(),
            forall|k: int| ptr <= k < ptr + r ==> self@[k] != 0,
    {
        let mut n: u32 = 0;
        while (ptr as usize) + (n as usize) < self.bytes.len() && self.bytes[ptr as usize
            + n as usize] != 0
            invariant
                0 < ptr,
                ptr + n <= self@.len() <= 0xffff_ffff,
                forall|i: int| ptr <= i < ptr + n ==> self@[i] != 0,
            decreases self@.len() - ptr - n,
        {
            n = n + 1;
        }
        proof {
            lemma_cstr_len_is(self@, ptr as int, n as nat);
        }
        n
    }

    /// The bytes of the C string at `ptr`, without its NUL.
    pub fn cstr_at(&self, ptr: ConstPtr) -> (r: Vec<u8>)
        requires
            self.valid(ptr as int, 0),
            self.wf(),
        ensures
            r@ == self.cstr(ptr as int),
            ptr + r@.len() <= self@.len(),
    {
        let n: u32 = self.cstr_len_at(ptr);
        let r: Vec<u8> = self.bytes_at(ptr, n);
        assert(r@ =~= self.cstr(ptr as int));
        r
    }

    /// The C string at `ptr` as text, if it is UTF-8.
    pub fn cstr_at_utf8(&self, ptr: ConstPtr) -> (r: Option<String>)
        requires
            self.valid(ptr as int, 0),
            self.wf(),
        ensures
            r is Some <==> valid_utf8(self.cstr(ptr as int)),
            r matches Some(s) ==> s@ == decode_utf8(self.cstr(ptr as int)),
    {
        utf8_string(self.cstr_at(ptr))
    }

    /// Stores `data` and a NUL after it.
    pub fn write_cstr(&mut self, ptr: MutPtr, data: &Vec<u8>)
        requires
            old(self).valid(ptr as int, data@.len() as int + 1),
            old(self).wf(),
        ensures
            final(self).stored(*old(self), ptr as int, data@.push(0)),
            final(self).wf(),
    {
        self.write_bytes(ptr, data);
        self.write_u8(ptr + data.len() as u32, 0);
        assert(self@ =~= overlay(old(self)@, ptr as int, data@.push(0)));
    }
}

/// Eight little-endian bytes are two halves of four.
pub proof fn lemma_le_bytes_8(v: int)
    requires
        0 <= v <= u64::MAX,
    ensures
        le_bytes(v, 8) == le_bytes(v % 0x1_0000_0000, 4) + le_bytes(v / 0x1_0000_0000, 4),
{
    let low = v % 0x1_0000_0000;
    let high = v / 0x1_0000_0000;
    lemma_le_bytes_4(low);
    lemma_le_bytes_4(v);
    lemma_le_bytes_split(v, 4);
    assert(v / 0x100 / 0x100 / 0x100 / 0x100 == high);
    assert(le_bytes(v, 4) =~= le_bytes(low, 4)) by {
        assert(v == low + 0x1_0000_0000 * high);
        assert(v / 0x100 == low / 0x100 + 0x100_0000 * high);
        assert(v / 0x1_0000 == low / 0x1_0000 + 0x1_0000 * high);
        assert(v / 0x100_0000 == low / 0x100_0000 + 0x100 * high);
    }
}

proof fn lemma_le_bytes_split(v: int, n: nat)
    ensures
        le_bytes(v, 4 + n) == le_bytes(v, 4) + le_bytes(v / 0x100 / 0x100 / 0x100 / 0x100, n),
{
    let v1 = v / 0x100;
    let v2 = v1 / 0x100;
    let v3 = v2 / 0x100;
    let v4 = v3 / 0x100;
    assert(le_bytes(v3, 1) =~= seq![(v3 % 0x100) as u8]) by {
        reveal_with_fuel(le_bytes, 2);
    }
    assert(le_bytes(v2, 2) == seq![(v2 % 0x100) as u8] + le_bytes(v3, 1));
    assert(le_bytes(v1, 3) == seq![(v1 % 0x100) as u8] + le_bytes(v2, 2));
    assert(le_bytes(v, 4) == seq![(v % 0x100) as u8] + le_bytes(v1, 3));
    assert(le_bytes(v3, 1 + n) == seq![(v3 % 0x100) as u8] + le_bytes(v4, n));
    assert(le_bytes(v2, 2 + n) == seq![(v2 % 0x100) as u8] + le_bytes(v3, 1 + n));
    assert(le_bytes(v1, 3 + n) == seq![(v1 % 0x100) as u8] + le_bytes(v2, 2 + n));
    assert(le_bytes(v, 4 + n) == seq![(v % 0x100) as u8] + le_bytes(v1, 3 + n));
    assert(le_bytes(v, 4 + n) =~= le_bytes(v, 4) + le_bytes(v4, n));
}

} // verus!

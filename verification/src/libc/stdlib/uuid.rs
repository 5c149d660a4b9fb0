//! UUIDs, as Core Foundation makes and writes them.
use vstd::prelude::*;

use crate::environment::Environment;
use crate::libc::stdlib::random::{arc4_after, arc4random, random_after};
use crate::mem::{ConstVoidPtr, MutVoidPtr};

verus! {

/// The byte number `k` of a 32-bit number, the lowest being number zero.
pub open spec fn byte_of(v: u32, k: int) -> u8 {
    if k == 0 {
        (v % 0x100) as u8
    } else if k == 1 {
        (v / 0x100 % 0x100) as u8
    } else if k == 2 {
        (v / 0x1_0000 % 0x100) as u8
    } else {
        (v / 0x100_0000) as u8
    }
}

/// The sixteen random bytes that follow the generator's state.
pub open spec fn random_byte(state: u32, i: int) -> u8 {
    byte_of(random_after(state, (i / 4 + 1) as nat), i % 4)
}

/// A random UUID: the version is four, and the variant the usual one.
pub open spec fn uuid_bytes(state: u32) -> Seq<u8> {
    Seq::new(
        16,
        |i: int|
            if i == 6 {
                (random_byte(state, i) % 16 + 0x40) as u8
            } else if i == 8 {
                (random_byte(state, i) % 64 + 0x80) as u8
            } else {
                random_byte(state, i)
            },
    )
}

/// The version and the variant of a UUID are marked as RFC 4122 has them.
pub proof fn law_uuid_marks(state: u32)
    ensures
        uuid_bytes(state)[6] / 16 == 4,
        uuid_bytes(state)[8] / 64 == 2,
        uuid_bytes(state).len() == 16,
{
}

/// `CFUUIDRef CFUUIDCreate(CFAllocatorRef alloc);`
pub fn CFUUIDCreate(env: &mut Environment, _alloc: ConstVoidPtr) -> (r: MutVoidPtr)
    requires
        old(env).wf(),
        old(env).mem.has_room(16),
    ensures
        final(env).wf(),
        *final(env) == arc4_after(*old(env), 4).with_mem(final(env).mem),
        final(env).mem.placed(
            old(env).mem,
            r,
            uuid_bytes(old(env).libc_state.stdlib.arc4random),
        ),
{
    let ghost state = env.libc_state.stdlib.arc4random;
    let mut bytes: Vec<u8> = Vec::new();
    let mut i: u32 = 0;
    while i < 4
        invariant
            i <= 4,
            state == old(env).libc_state.stdlib.arc4random,
            *env == arc4_after(*old(env), i as nat),
            bytes@.len() == 4 * i,
            forall|k: int| 0 <= k < 4 * i ==> (#[trigger] bytes@[k]) == random_byte(state, k),
        decreases 4 - i,
    {
        let r: u32 = arc4random(env);
        proof {
            reveal_with_fuel(random_after, 2);
            assert(r == random_after(state, (i + 1) as nat));
        }
        bytes.push((r % 0x100) as u8);
        bytes.push((r / 0x100 % 0x100) as u8);
        bytes.push((r / 0x1_0000 % 0x100) as u8);
        bytes.push((r / 0x100_0000) as u8);
        i = i + 1;
    }
    let version: u8 = bytes[6] % 16 + 0x40;
    let variant: u8 = bytes[8] % 64 + 0x80;
    bytes[6] = version;
    bytes[8] = variant;
    assert(bytes@ =~= uuid_bytes(state));
    env.mem.alloc_and_write(&bytes)
}

/// The upper case hexadecimal digit of a number below sixteen.
pub open spec fn hex_digit(v: int) -> u8 {
    if v < 10 {
        (0x30 + v) as u8
    } else {
        (0x41 + v - 10) as u8
    }
}

/// Whether a dash stands before the byte number `i`.
pub open spec fn dash_before(i: int) -> bool {
    i == 4 || i == 6 || i == 8 || i == 10
}

/// The text of the first `n` bytes of a UUID.
pub open spec fn uuid_text(bytes: Seq<u8>, n: int) -> Seq<u8>
    decreases n,
{
    if n <= 0 {
        Seq::empty()
    } else {
        let front = uuid_text(bytes, n - 1);
        let dashed = if dash_before(n - 1) {
            front.push(0x2d)
        } else {
            front
        };
        dashed.push(hex_digit(bytes[n - 1] as int / 16)).push(hex_digit(bytes[n - 1] as int % 16))
    }
}

fn hex_of(v: u8) -> (r: u8)
    requires
        v < 16,
    ensures
        r == hex_digit(v as int),
{
    if v < 10 {
        0x30 + v
    } else {
        0x41 + (v - 10)
    }
}

/// The text that `CFUUIDCreateString` makes of the UUID at `uuid`.
pub fn uuid_string_at(env: &Environment, uuid: ConstVoidPtr) -> (r: Vec<u8>)
    requires
        env.wf(),
        env.mem.valid(uuid as int, 16),
    ensures
        r@ == uuid_text(env.mem@.subrange(uuid as int, uuid + 16), 16),
        r@.len() == 36,
{
    let bytes: Vec<u8> = env.mem.bytes_at(uuid, 16);
    let mut text: Vec<u8> = Vec::new();
    let mut i: usize = 0;
    while i < 16
        invariant
            i <= 16,
            bytes@.len() == 16,
            text@ == uuid_text(bytes@, i as int),
            text@.len() == 2 * i + (if i > 10 {
                4int
            } else if i > 8 {
                3
            } else if i > 6 {
                2
            } else if i > 4 {
                1
            } else {
                0
            }),
        decreases 16 - i,
    {
        if i == 4 || i == 6 || i == 8 || i == 10 {
            text.push(0x2d);
        }
        text.push(hex_of(bytes[i] / 16));
        text.push(hex_of(bytes[i] % 16));
        i = i + 1;
    }
    text
}

/// `void CFUUIDRelease(CFUUIDRef uuid);`
pub fn CFUUIDRelease(env: &mut Environment, uuid: MutVoidPtr)
    requires
        old(env).wf(),
    ensures
        final(env).wf(),
        *final(env) == old(env).with_mem(final(env).mem),
        final(env).mem.released(old(env).mem, uuid),
{
    env.mem.free(uuid);
}

} // verus!

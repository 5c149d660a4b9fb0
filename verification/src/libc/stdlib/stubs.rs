//! Functions that programs link against and that need no more than a fixed
//! answer, and the report of a smashed stack.
use vstd::prelude::*;
use vstd::utf8::encode_utf8;

use crate::environment::Environment;
use crate::libc::errno::{set_errno, ENOENT};
use crate::mem::{
    le_bytes, le_u32, signed32, to_signed32, to_unsigned32, unsigned32, ConstPtr, ConstVoidPtr,
    GuestUSize, Mem, MutPtr, MutVoidPtr,
};
use crate::text::{push_hex8, push_str, hex8};

verus! {

/// `int dladdr(...);`: no symbol is known.
pub fn dladdr(env: &mut Environment, _addr: ConstVoidPtr, _info: MutVoidPtr) -> (r: i32)
    ensures
        *final(env) == *old(env),
        r == 0,
{
    0
}

/// `int kqueue(void);`: a descriptor that stands for no queue.
pub fn kqueue(env: &mut Environment) -> (r: i32)
    ensures
        *final(env) == *old(env),
        r == 999,
{
    999
}

/// `int kevent(...);`: no event comes.
pub fn kevent(
    env: &mut Environment,
    _kq: i32,
    _changelist: ConstVoidPtr,
    _nchanges: i32,
    _eventlist: MutVoidPtr,
    _nevents: i32,
    _timeout: ConstVoidPtr,
) -> (r: i32)
    ensures
        *final(env) == *old(env),
        r == 0,
{
    0
}

/// `int inflateReset2(z_streamp strm, int windowBits);`: returns `Z_OK`.
pub fn inflateReset2(env: &mut Environment, _strm: MutVoidPtr, _window_bits: i32) -> (r: i32)
    ensures
        *final(env) == *old(env),
        r == 0,
{
    0
}

/// Blocks are not copied.
pub fn _Block_copy(env: &mut Environment, block: ConstVoidPtr) -> (r: ConstVoidPtr)
    ensures
        *final(env) == *old(env),
        r == block,
{
    block
}

/// Blocks are not released.
pub fn _Block_release(env: &mut Environment, _block: ConstVoidPtr)
    ensures
        *final(env) == *old(env),
{
}

/// No keychain item is found.
pub fn SecItemCopyMatching(env: &mut Environment, _query: ConstVoidPtr, _result: MutPtr) -> (r: i32)
    ensures
        *final(env) == *old(env),
        r == -25300,
{
    -25300
}

/// A keychain item is accepted, and not stored.
pub fn SecItemAdd(env: &mut Environment, _attributes: ConstVoidPtr, _result: MutPtr) -> (r: i32)
    ensures
        *final(env) == *old(env),
        r == 0,
{
    0
}

/// Instances count as large enough for any class.
pub fn class_getInstanceSize(env: &mut Environment, _cls: ConstVoidPtr) -> (r: GuestUSize)
    ensures
        *final(env) == *old(env),
        r == 1024,
{
    1024
}

/// Guest threads do not run at the same time.
pub fn OSMemoryBarrier(env: &mut Environment)
    ensures
        *final(env) == *old(env),
{
}

/// No class responds to a selector that is asked for in this way.
pub fn class_respondsToSelector(
    env: &mut Environment,
    _cls: ConstVoidPtr,
    _sel: ConstVoidPtr,
) -> (r: bool)
    ensures
        *final(env) == *old(env),
        r == false,
{
    false
}

/// `int setrlimit(...);`: accepted, and ignored.
pub fn setrlimit(env: &mut Environment, _resource: i32, _rlp: ConstVoidPtr) -> (r: i32)
    ensures
        *final(env) == *old(env),
        r == 0,
{
    0
}

/// Accepted, and ignored.
pub fn CGContextSetFillColor(
    env: &mut Environment,
    _context: ConstVoidPtr,
    _components: ConstVoidPtr,
)
    ensures
        *final(env) == *old(env),
{
}

/// Accepted, and ignored.
pub fn CGContextBeginPath(env: &mut Environment, _context: ConstVoidPtr)
    ensures
        *final(env) == *old(env),
{
}

/// Accepted, and ignored.
pub fn CGContextClosePath(env: &mut Environment, _context: ConstVoidPtr)
    ensures
        *final(env) == *old(env),
{
}

/// Accepted, and ignored.
pub fn CGContextFillPath(env: &mut Environment, _context: ConstVoidPtr)
    ensures
        *final(env) == *old(env),
{
}

/// Accepted, and ignored.
pub fn CGContextStrokePath(env: &mut Environment, _context: ConstVoidPtr)
    ensures
        *final(env) == *old(env),
{
}

/// Accepted, and ignored.
pub fn CGContextSetStrokeColorWithColor(
    env: &mut Environment,
    _context: ConstVoidPtr,
    _color: ConstVoidPtr,
)
    ensures
        *final(env) == *old(env),
{
}

/// Accepted, and ignored.
pub fn CGContextClip(env: &mut Environment, _context: ConstVoidPtr)
    ensures
        *final(env) == *old(env),
{
}

/// Accepted, and ignored; numbers are bit patterns.
pub fn CGContextMoveToPoint(env: &mut Environment, _context: ConstVoidPtr, _x: u32, _y: u32)
    ensures
        *final(env) == *old(env),
{
}

/// Accepted, and ignored; numbers are bit patterns.
pub fn CGContextAddLineToPoint(env: &mut Environment, _context: ConstVoidPtr, _x: u32, _y: u32)
    ensures
        *final(env) == *old(env),
{
}

/// Accepted, and ignored; numbers are bit patterns.
pub fn CGContextSetLineWidth(env: &mut Environment, _context: ConstVoidPtr, _width: u32)
    ensures
        *final(env) == *old(env),
{
}

/// A failed assertion of the guest does not stop it.
pub fn __assert_rtn(
    env: &mut Environment,
    _func: ConstPtr,
    _file: ConstPtr,
    _line: i32,
    _expr: ConstPtr,
)
    ensures
        *final(env) == *old(env),
{
}

/// A failed assertion of the guest does not stop it.
pub fn __assert(env: &mut Environment, _expr: ConstPtr, _file: ConstPtr, _line: i32)
    ensures
        *final(env) == *old(env),
{
}

/// A failed assertion of the guest does not stop it.
pub fn __assert_fail(
    env: &mut Environment,
    _expr: ConstPtr,
    _file: ConstPtr,
    _line: u32,
    _func: ConstPtr,
)
    ensures
        *final(env) == *old(env),
{
}

/// `int syscall(int number, ...);`: no call is known.
pub fn syscall(env: &mut Environment, _number: i32, _arg1: u32, _arg2: u32, _arg3: u32) -> (r: i32)
    ensures
        *final(env) == old(env).with_errno(ENOENT),
        r == -1,
{
    set_errno(env, ENOENT);
    -1
}

/// Where a property with the given offset lies in an object.
pub open spec fn property_at(object: int, offset: int) -> int {
    unsigned32(signed32(object) + offset)
}

/// Stores a property of an object, unless there is none.
pub fn objc_setProperty_nonatomic(
    env: &mut Environment,
    self_ptr: MutVoidPtr,
    _cmd: ConstVoidPtr,
    val: MutVoidPtr,
    offset: i32,
)
    requires
        old(env).wf(),
        self_ptr != 0 ==> {
            &&& i32::MIN <= signed32(self_ptr as int) + offset <= i32::MAX
            &&& old(env).mem.valid(property_at(self_ptr as int, offset as int), 4)
        },
    ensures
        final(env).wf(),
        if self_ptr == 0 {
            *final(env) == *old(env)
        } else {
            &&& *final(env) == old(env).with_mem(final(env).mem)
            &&& final(env).mem.stored(
                old(env).mem,
                property_at(self_ptr as int, offset as int),
                le_bytes(val as int, 4),
            )
        },
{
    if self_ptr != 0 {
        let addr: u32 = to_unsigned32(to_signed32(self_ptr) + offset);
        env.mem.write_u32(addr, val);
    }
}

/// Four colour components in a new chunk, all of them zero.
pub fn CGColorGetComponents(env: &mut Environment, _color: ConstVoidPtr) -> (r: MutVoidPtr)
    requires
        old(env).wf(),
        old(env).mem.has_room(16),
    ensures
        final(env).wf(),
        *final(env) == old(env).with_mem(final(env).mem),
        final(env).mem.placed(old(env).mem, r, Seq::new(16, |i: int| 0u8)),
{
    env.mem.calloc(16)
}

/// `clock_t times(struct tms *buf);`: no time has passed.
pub fn times(env: &mut Environment, buf: MutVoidPtr) -> (r: i32)
    requires
        old(env).wf(),
        buf != 0 ==> old(env).mem.valid(buf as int, 16),
    ensures
        final(env).wf(),
        r == 0,
        if buf == 0 {
            *final(env) == *old(env)
        } else {
            &&& *final(env) == old(env).with_mem(final(env).mem)
            &&& final(env).mem.stored(old(env).mem, buf as int, Seq::new(16, |i: int| 0u8))
        },
{
    if buf != 0 {
        env.mem.zero_bytes(buf, 16);
    }
    0
}

/// A byte as it is shown: itself where it is a printable character.
pub open spec fn shown(b: u8) -> u8 {
    if 32 <= b <= 126 {
        b
    } else {
        0x2e
    }
}

fn shown_byte(b: u8) -> (r: u8)
    ensures
        r == shown(b),
{
    if 32 <= b && b <= 126 {
        b
    } else {
        0x2e
    }
}

/// The first lines of the report of a smashed stack.
pub open spec fn stack_header(lr: u32, fp: u32, sp: u32) -> Seq<u8> {
    encode_utf8("\n[DEBUG] ___stack_chk_fail triggered!\n[DEBUG] LR: 0x"@) + hex8(lr)
        + encode_utf8(", FP: 0x"@) + hex8(fp) + encode_utf8(", SP: 0x"@) + hex8(sp)
        + encode_utf8("\n[DEBUG] Stack dump:\n"@)
}

/// The line of the report for the word at `at`.
pub open spec fn stack_line(mem: Mem, at: int) -> Seq<u8> {
    encode_utf8("[DEBUG] 0x"@) + hex8(at as u32) + encode_utf8(": "@) + hex8(
        le_u32(mem@, at) as u32,
    ) + encode_utf8(" | "@) + seq![
        shown(mem@[at]),
        shown(mem@[at + 1]),
        shown(mem@[at + 2]),
        shown(mem@[at + 3]),
        0x0au8,
    ]
}

/// The lines for the words from `from` up to `end`.
pub open spec fn stack_lines(mem: Mem, from: int, end: int) -> Seq<u8>
    decreases end + 4 - from,
{
    if from > end {
        Seq::empty()
    } else {
        stack_line(mem, from) + stack_lines(mem, from + 4, end)
    }
}

/// The report of a smashed stack, with which the guest is stopped.
pub fn __stack_chk_fail(env: &mut Environment) -> (r: Vec<u8>)
    requires
        old(env).wf(),
        old(env).cpu.wf(),
        ({
            let fp = old(env).cpu.regs@[7] as int;
            let sp = old(env).cpu.regs@[13] as int;
            &&& fp + 36 <= u32::MAX
            &&& sp <= fp + 32 ==> old(env).mem.valid(sp, fp + 36 - sp)
        }),
    ensures
        *final(env) == *old(env),
        r@ == stack_header(
            old(env).cpu.regs@[14],
            old(env).cpu.regs@[7],
            old(env).cpu.regs@[13],
        ) + stack_lines(
            old(env).mem,
            old(env).cpu.regs@[13] as int,
            old(env).cpu.regs@[7] as int + 32,
        ),
{
    let fp: u32 = env.cpu.regs[7];
    let sp: u32 = env.cpu.regs[13];
    let lr: u32 = env.cpu.regs[14];
    let mut dump: Vec<u8> = Vec::new();
    push_str(&mut dump, "\n[DEBUG] ___stack_chk_fail triggered!\n[DEBUG] LR: 0x");
    push_hex8(&mut dump, lr);
    push_str(&mut dump, ", FP: 0x");
    push_hex8(&mut dump, fp);
    push_str(&mut dump, ", SP: 0x");
    push_hex8(&mut dump, sp);
    push_str(&mut dump, "\n[DEBUG] Stack dump:\n");
    assert(dump@ =~= stack_header(lr, fp, sp));
    let ghost end = fp + 32;
    let ghost all = dump@ + stack_lines(env.mem, sp as int, end);
    let mut curr: u32 = sp;
    while curr <= fp + 32
        invariant
            *env == *old(env),
            env.wf(),
            fp + 36 <= u32::MAX,
            sp <= curr,
            sp <= fp + 32 ==> env.mem.valid(sp as int, fp + 36 - sp),
            end == fp + 32,
            all == dump@ + stack_lines(env.mem, curr as int, end),
        decreases fp + 36 - curr,
    {
        let ghost before = dump@;
        let val: u32 = env.mem.read_u32(curr);
        push_str(&mut dump, "[DEBUG] 0x");
        push_hex8(&mut dump, curr);
        push_str(&mut dump, ": ");
        push_hex8(&mut dump, val);
        push_str(&mut dump, " | ");
        dump.push(shown_byte(env.mem.read_u8(curr)));
        dump.push(shown_byte(env.mem.read_u8(curr + 1)));
        dump.push(shown_byte(env.mem.read_u8(curr + 2)));
        dump.push(shown_byte(env.mem.read_u8(curr + 3)));
        dump.push(0x0a);
        assert(dump@ =~= before + stack_line(env.mem, curr as int));
        assert(all =~= dump@ + stack_lines(env.mem, curr + 4, end));
        curr = curr + 4;
    }
    assert(all =~= dump@);
    dump
}

} // verus!

//! `getopt.h` / BSD `unistd.h` command-line option parsing:
//! `getopt()`, `getopt_long()`, and the `optarg`/`optind`/`opterr`/`optopt`
//! globals they communicate through.
//!
//! What a call decides is computed from the words and the options alone
//! (`short_step`, `match_long`); what follows from it for the four globals,
//! which are cells in guest memory, is done afterwards.
use vstd::prelude::*;
use vstd::utf8::{decode_utf8, encode_utf8, valid_utf8};

use crate::environment::Environment;
use crate::mem::{le_bytes, le_u32, signed32, to_signed32, unsigned32, ConstPtr, Mem, MutPtr};
use crate::text::{chars_of, same_chars, utf8_bytes};

verus! {

pub struct State {
    /// Address of the guest `optarg` (`char *`) storage cell.
    pub optarg_ptr: Option<MutPtr>,
    /// Address of the guest `optind` (`int`) storage cell.
    pub optind_ptr: Option<MutPtr>,
    /// Address of the guest `opterr` (`int`) storage cell.
    pub opterr_ptr: Option<MutPtr>,
    /// Address of the guest `optopt` (`int`) storage cell.
    pub optopt_ptr: Option<MutPtr>,
    /// Index into the current `argv` element when parsing a bundle of
    /// short options like `-abc`.
    pub next_char_idx: usize,
}

impl Default for State {
    fn default() -> (r: State)
        ensures
            r == (State {
                optarg_ptr: None,
                optind_ptr: None,
                opterr_ptr: None,
                optopt_ptr: None,
                next_char_idx: 0,
            }),
    {
        State {
            optarg_ptr: None,
            optind_ptr: None,
            opterr_ptr: None,
            optopt_ptr: None,
            next_char_idx: 0,
        }
    }
}

/// What becomes of `optarg`.
pub enum ArgAction {
    Keep,
    Clear,
    Text(Vec<char>),
}

/// What a scan for a short option decided.
pub struct ShortStep {
    /// What `getopt` returns.
    pub ret: i32,
    /// The new `optind`.
    pub ind: i32,
    /// Where the scan goes on in the word at `optind`, or 0.
    pub next: usize,
    pub arg: ArgAction,
    /// The new `optopt`, where an option is refused.
    pub optopt: Option<i32>,
}

/// `ArgAction`, with text as a sequence.
pub ghost enum ArgView {
    Keep,
    Clear,
    Text(Seq<char>),
}

/// `ShortStep`, with text as a sequence.
pub ghost struct StepView {
    pub ret: int,
    pub ind: int,
    pub next: int,
    pub arg: ArgView,
    pub optopt: Option<int>,
}

impl ArgAction {
    pub open spec fn view(&self) -> ArgView {
        match self {
            ArgAction::Keep => ArgView::Keep,
            ArgAction::Clear => ArgView::Clear,
            ArgAction::Text(t) => ArgView::Text(t@),
        }
    }
}

impl ShortStep {
    pub open spec fn view(&self) -> StepView {
        StepView {
            ret: self.ret as int,
            ind: self.ind as int,
            next: self.next as int,
            arg: self.arg.view(),
            optopt: match self.optopt {
                Some(c) => Some(c as int),
                None => None,
            },
        }
    }
}

/// `argv[idx]` as text, where it is there and is UTF-8.
pub open spec fn word(mem: Mem, argv: int, argc: int, idx: int) -> Option<Seq<char>> {
    let ptr = le_u32(mem@, argv + 4 * idx);
    if idx < 0 || idx >= argc || ptr == 0 || !valid_utf8(mem.cstr(ptr)) {
        None
    } else {
        Some(decode_utf8(mem.cstr(ptr)))
    }
}

/// The code point of `c`.
pub open spec fn code(c: char) -> int {
    signed32((c as u32) as int)
}

/// Where the letter `opt` first stands in the option string, from `from` on;
/// a colon is no letter.
pub open spec fn letter_index(opts: Seq<char>, opt: char, from: int) -> Option<int>
    decreases opts.len() - from,
{
    if from < 0 || from >= opts.len() {
        None
    } else if opts[from] == opt && opts[from] != ':' {
        Some(from)
    } else {
        letter_index(opts, opt, from + 1)
    }
}

/// The scan stops without an option.
pub open spec fn no_option(ind: int, next: int) -> StepView {
    StepView { ret: -1, ind, next, arg: ArgView::Keep, optopt: None }
}

/// What the option letter at `chars[k]` of the word number `ind` stands for.
pub open spec fn option_at(
    mem: Mem,
    argv: int,
    argc: int,
    opts: Seq<char>,
    ind: int,
    chars: Seq<char>,
    k: int,
) -> StepView {
    let opt = chars[k];
    let last = k + 1 >= chars.len();
    // Where the scan goes on when only the letter was used.
    let after_letter = if last {
        ind + 1
    } else {
        ind
    };
    let next_letter = if last {
        0
    } else {
        k + 1
    };
    match letter_index(opts, opt, 0) {
        None => StepView {
            ret: 0x3f,
            ind: after_letter,
            next: next_letter,
            arg: ArgView::Keep,
            optopt: Some(code(opt)),
        },
        Some(i) => {
            let takes_arg = i + 1 < opts.len() && opts[i + 1] == ':';
            let optional_arg = takes_arg && i + 2 < opts.len() && opts[i + 2] == ':';
            if !takes_arg {
                StepView {
                    ret: code(opt),
                    ind: after_letter,
                    next: next_letter,
                    arg: ArgView::Clear,
                    optopt: None,
                }
            } else if !last {
                StepView {
                    ret: code(opt),
                    ind: ind + 1,
                    next: 0,
                    arg: ArgView::Text(chars.skip(k + 1)),
                    optopt: None,
                }
            } else if optional_arg {
                StepView {
                    ret: code(opt),
                    ind: ind + 1,
                    next: 0,
                    arg: ArgView::Clear,
                    optopt: None,
                }
            } else {
                match word(mem, argv, argc, ind + 1) {
                    Some(text) => StepView {
                        ret: code(opt),
                        ind: ind + 2,
                        next: 0,
                        arg: ArgView::Text(text),
                        optopt: None,
                    },
                    None => StepView {
                        ret: if opts.len() > 0 && opts[0] == ':' {
                            0x3a
                        } else {
                            0x3f
                        },
                        ind: ind + 1,
                        next: 0,
                        arg: ArgView::Keep,
                        optopt: Some(code(opt)),
                    },
                }
            }
        },
    }
}

/// What a scan that starts a new word finds.
pub open spec fn new_word(
    mem: Mem,
    argv: int,
    argc: int,
    opts: Seq<char>,
    ind: int,
) -> StepView {
    match word(mem, argv, argc, ind) {
        None => no_option(ind, 0),
        Some(chars) => if chars == seq!['-', '-'] {
            no_option(ind + 1, 0)
        } else if chars.len() < 2 || chars[0] != '-' {
            no_option(ind, 0)
        } else {
            option_at(mem, argv, argc, opts, ind, chars, 1)
        },
    }
}

/// What a scan finds that goes on at the character `next` of the word number
/// `ind`.
pub open spec fn short_step(
    mem: Mem,
    argv: int,
    argc: int,
    opts: Seq<char>,
    ind: int,
    next: int,
) -> StepView {
    match word(mem, argv, argc, ind) {
        None => no_option(ind, next),
        Some(chars) => if next == 0 {
            new_word(mem, argv, argc, opts, ind)
        } else if next >= chars.len() {
            new_word(mem, argv, argc, opts, ind + 1)
        } else {
            option_at(mem, argv, argc, opts, ind, chars, next)
        },
    }
}

/// The text that `w` holds, if any.
pub open spec fn text_of(w: Option<Vec<char>>) -> Option<Seq<char>> {
    match w {
        Some(t) => Some(t@),
        None => None,
    }
}

/// `argv[i]` is in guest memory, where it is read.
pub open spec fn word_readable(mem: Mem, argc: int, argv: int, i: int) -> bool {
    0 <= i < argc ==> {
        &&& mem.valid(argv + 4 * i, 4)
        &&& le_u32(mem@, argv + 4 * i) != 0 ==> mem.valid(le_u32(mem@, argv + 4 * i), 0)
    }
}

/// The letter at `chars[k]` wants an argument, which the next word has to hold.
pub open spec fn takes_next_word(opts: Seq<char>, chars: Seq<char>, k: int) -> bool {
    match letter_index(opts, chars[k], 0) {
        None => false,
        Some(i) => {
            let takes_arg = i + 1 < opts.len() && opts[i + 1] == ':';
            let optional_arg = takes_arg && i + 2 < opts.len() && opts[i + 2] == ':';
            takes_arg && !optional_arg && k + 1 >= chars.len()
        },
    }
}

/// What `option_at` reads is in guest memory.
pub open spec fn letter_readable(
    mem: Mem,
    argc: int,
    argv: int,
    opts: Seq<char>,
    ind: int,
    chars: Seq<char>,
    k: int,
) -> bool {
    takes_next_word(opts, chars, k) ==> word_readable(mem, argc, argv, ind + 1)
}

/// What `new_word` reads is in guest memory.
pub open spec fn new_word_readable(
    mem: Mem,
    argc: int,
    argv: int,
    opts: Seq<char>,
    ind: int,
) -> bool {
    &&& word_readable(mem, argc, argv, ind)
    &&& word(mem, argv, argc, ind) matches Some(chars) ==> {
        chars != seq!['-', '-'] && chars.len() >= 2 && chars[0] == '-' ==> letter_readable(
            mem,
            argc,
            argv,
            opts,
            ind,
            chars,
            1,
        )
    }
}

/// What `short_step` reads is in guest memory.
pub open spec fn step_readable(
    mem: Mem,
    argc: int,
    argv: int,
    opts: Seq<char>,
    ind: int,
    next: int,
) -> bool {
    &&& word_readable(mem, argc, argv, ind)
    &&& word(mem, argv, argc, ind) matches Some(chars) ==> {
        if next == 0 {
            new_word_readable(mem, argc, argv, opts, ind)
        } else if next >= chars.len() {
            new_word_readable(mem, argc, argv, opts, ind + 1)
        } else {
            letter_readable(mem, argc, argv, opts, ind, chars, next)
        }
    }
}

/// Read `argv[idx]` (a `char *const argv[]` guest array) as text, or `None`
/// past the end (`argc`) or on decode failure.
pub fn read_arg(mem: &Mem, argv: MutPtr, argc: i32, idx: i32) -> (r: Option<Vec<char>>)
    requires
        mem.wf(),
        word_readable(*mem, argc as int, argv as int, idx as int),
    ensures
        text_of(r) == word(*mem, argv as int, argc as int, idx as int),
        r is Some ==> 0 <= idx < argc,
{
    if idx < 0 || idx >= argc {
        return None;
    }
    let arg_ptr: u32 = mem.read_u32(argv + 4 * idx as u32);
    if arg_ptr == 0 {
        return None;
    }
    assert(arg_ptr == le_u32(mem@, argv + 4 * idx));
    match mem.cstr_at_utf8(arg_ptr) {
        Some(s) => Some(chars_of(s.as_str())),
        None => None,
    }
}

proof fn lemma_letter_index_is(opts: Seq<char>, opt: char, from: int, k: int)
    requires
        0 <= from <= k <= opts.len(),
        forall|i: int| from <= i < k ==> !((#[trigger] opts[i]) == opt && opts[i] != ':'),
        k < opts.len() ==> opts[k] == opt && opts[k] != ':',
    ensures
        letter_index(opts, opt, from) == if k < opts.len() {
            Some(k)
        } else {
            None
        },
    decreases k - from,
{
    if from < k {
        lemma_letter_index_is(opts, opt, from + 1, k);
    }
}

fn find_letter(opts: &Vec<char>, opt: char) -> (r: Option<usize>)
    ensures
        match letter_index(opts@, opt, 0) {
            Some(k) => (r matches Some(i) && i == k) && 0 <= k < opts@.len(),
            None => r is None,
        },
{
    let n: usize = opts.len();
    let mut i: usize = 0;
    while i < n
        invariant
            i <= n == opts@.len(),
            forall|k: int| 0 <= k < i ==> !((#[trigger] opts@[k]) == opt && opts@[k] != ':'),
        decreases n - i,
    {
        if opts[i] == opt && opts[i] != ':' {
            proof {
                lemma_letter_index_is(opts@, opt, 0, i as int);
            }
            return Some(i);
        }
        i = i + 1;
    }
    proof {
        lemma_letter_index_is(opts@, opt, 0, n as int);
    }
    None
}

/// What the option letter at `chars[k]` of the word number `ind` stands for.
fn scan_option(
    mem: &Mem,
    argc: i32,
    argv: MutPtr,
    opts: &Vec<char>,
    ind: i32,
    chars: &Vec<char>,
    k: usize,
) -> (r: ShortStep)
    requires
        mem.wf(),
        letter_readable(
            *mem,
            argc as int,
            argv as int,
            opts@,
            ind as int,
            chars@,
            k as int,
        ),
        0 <= ind < argc,
        k < chars@.len(),
    ensures
        r.view() == option_at(
            *mem,
            argv as int,
            argc as int,
            opts@,
            ind as int,
            chars@,
            k as int,
        ),
{
    let opt: char = chars[k];
    let letter: i32 = to_signed32(opt as u32);
    let last: bool = chars.len() - k <= 1;
    let (after_letter, next_letter): (i32, usize) = if last {
        (ind + 1, 0)
    } else {
        (ind, k + 1)
    };
    let i: usize = match find_letter(opts, opt) {
        Some(i) => i,
        None => {
            return ShortStep {
                ret: 0x3f,
                ind: after_letter,
                next: next_letter,
                arg: ArgAction::Keep,
                optopt: Some(letter),
            };
        },
    };
    let after: usize = opts.len() - i;
    let takes_arg: bool = after > 1 && opts[i + 1] == ':';
    let optional_arg: bool = takes_arg && after > 2 && opts[i + 2] == ':';
    if !takes_arg {
        return ShortStep {
            ret: letter,
            ind: after_letter,
            next: next_letter,
            arg: ArgAction::Clear,
            optopt: None,
        };
    }
    // Argument attached to the same word, e.g. `-oFILE`.
    if !last {
        let rest: Vec<char> = chars_from(chars, k + 1);
        return ShortStep {
            ret: letter,
            ind: ind + 1,
            next: 0,
            arg: ArgAction::Text(rest),
            optopt: None,
        };
    }
    // An argument that is optional is not taken from the next word.
    if optional_arg {
        return ShortStep {
            ret: letter,
            ind: ind + 1,
            next: 0,
            arg: ArgAction::Clear,
            optopt: None,
        };
    }
    match read_arg(mem, argv, argc, ind + 1) {
        Some(text) => ShortStep {
            ret: letter,
            ind: ind + 2,
            next: 0,
            arg: ArgAction::Text(text),
            optopt: None,
        },
        None => ShortStep {
            ret: if opts.len() > 0 && opts[0] == ':' {
                0x3a
            } else {
                0x3f
            },
            ind: ind + 1,
            next: 0,
            arg: ArgAction::Keep,
            optopt: Some(letter),
        },
    }
}

/// The characters of `c` from `from` on.
pub fn chars_from(c: &Vec<char>, from: usize) -> (r: Vec<char>)
    requires
        from <= c@.len(),
    ensures
        r@ == c@.skip(from as int),
{
    let mut r: Vec<char> = Vec::new();
    let mut i: usize = from;
    while i < c.len()
        invariant
            from <= i <= c@.len(),
            r@ =~= c@.subrange(from as int, i as int),
        decreases c@.len() - i,
    {
        r.push(c[i]);
        i = i + 1;
    }
    assert(c@.subrange(from as int, c@.len() as int) =~= c@.skip(from as int));
    r
}

/// What a scan that starts a new word finds.
fn scan_new_word(mem: &Mem, argc: i32, argv: MutPtr, opts: &Vec<char>, ind: i32) -> (r: ShortStep)
    requires
        mem.wf(),
        new_word_readable(*mem, argc as int, argv as int, opts@, ind as int),
    ensures
        r.view() == new_word(*mem, argv as int, argc as int, opts@, ind as int),
{
    let chars: Vec<char> = match read_arg(mem, argv, argc, ind) {
        Some(chars) => chars,
        None => {
            return ShortStep { ret: -1, ind, next: 0, arg: ArgAction::Keep, optopt: None };
        },
    };
    if chars.len() == 2 && chars[0] == '-' && chars[1] == '-' {
        assert(chars@ =~= seq!['-', '-']);
        return ShortStep { ret: -1, ind: ind + 1, next: 0, arg: ArgAction::Keep, optopt: None };
    }
    if chars.len() < 2 || chars[0] != '-' {
        return ShortStep { ret: -1, ind, next: 0, arg: ArgAction::Keep, optopt: None };
    }
    scan_option(mem, argc, argv, opts, ind, &chars, 1)
}

/// What a scan finds that goes on at the character `next` of the word number
/// `ind`.
///
/// `opts` follows POSIX syntax: a letter with no suffix takes no argument, a
/// letter followed by `:` requires an argument (optionally attached, e.g.
/// `-oFILE`, or as the next word, e.g. `-o FILE`), and a letter followed by
/// `::` takes an optional attached argument.
pub fn scan_short(
    mem: &Mem,
    argc: i32,
    argv: MutPtr,
    opts: &Vec<char>,
    ind: i32,
    next: usize,
) -> (r: ShortStep)
    requires
        mem.wf(),
        step_readable(*mem, argc as int, argv as int, opts@, ind as int, next as int),
    ensures
        r.view() == short_step(
            *mem,
            argv as int,
            argc as int,
            opts@,
            ind as int,
            next as int,
        ),
{
    let chars: Vec<char> = match read_arg(mem, argv, argc, ind) {
        Some(chars) => chars,
        None => {
            return ShortStep { ret: -1, ind, next, arg: ArgAction::Keep, optopt: None };
        },
    };
    if next == 0 {
        scan_new_word(mem, argc, argv, opts, ind)
    } else if next >= chars.len() {
        scan_new_word(mem, argc, argv, opts, ind + 1)
    } else {
        scan_option(mem, argc, argv, opts, ind, &chars, next)
    }
}

/// A scan never goes back: the index of the next word grows, or stays while
/// the scan moves on inside a word.
pub proof fn law_scan_progress(
    mem: Mem,
    argv: int,
    argc: int,
    opts: Seq<char>,
    ind: int,
    next: int,
)
    requires
        0 <= next,
    ensures
        ({
            let s = short_step(mem, argv, argc, opts, ind, next);
            &&& ind <= s.ind
            &&& s.ret != -1 ==> s.ind > ind || s.next > next
            &&& s.ind > ind && s.ret != -1 ==> s.ind <= argc
        }),
{
}

/// An option that takes no argument leaves `optarg` null and moves over its
/// letter alone.
pub proof fn law_plain_option(
    mem: Mem,
    argv: int,
    argc: int,
    opts: Seq<char>,
    ind: int,
    next: int,
    i: int,
)
    requires
        0 < next,
        word(mem, argv, argc, ind) is Some,
        next < word(mem, argv, argc, ind)->0.len(),
        letter_index(opts, word(mem, argv, argc, ind)->0[next], 0) == Some(i),
        i + 1 >= opts.len() || opts[i + 1] != ':',
    ensures
        ({
            let chars = word(mem, argv, argc, ind)->0;
            let s = short_step(mem, argv, argc, opts, ind, next);
            &&& s.ret == code(chars[next])
            &&& s.arg is Clear
            &&& s.optopt is None
            &&& if next + 1 < chars.len() {
                s.ind == ind && s.next == next + 1
            } else {
                s.ind == ind + 1 && s.next == 0
            }
        }),
{
}

/// The four globals, each of which is a word in guest memory.
#[derive(Clone, Copy, Debug, PartialEq, Eq, Structural)]
pub enum Cell {
    Optarg,
    Optind,
    Opterr,
    Optopt,
}

/// Where a global lies, if it does yet.
pub open spec fn cell_ptr(s: State, cell: Cell) -> Option<MutPtr> {
    match cell {
        Cell::Optarg => s.optarg_ptr,
        Cell::Optind => s.optind_ptr,
        Cell::Opterr => s.opterr_ptr,
        Cell::Optopt => s.optopt_ptr,
    }
}

pub open spec fn with_cell_ptr(s: State, cell: Cell, ptr: MutPtr) -> State {
    match cell {
        Cell::Optarg => State { optarg_ptr: Some(ptr), ..s },
        Cell::Optind => State { optind_ptr: Some(ptr), ..s },
        Cell::Opterr => State { opterr_ptr: Some(ptr), ..s },
        Cell::Optopt => State { optopt_ptr: Some(ptr), ..s },
    }
}

/// What a global holds at first: `optind` is 1, as `argv[0]` is the program's
/// name, and `opterr` is not zero.
pub open spec fn cell_init(cell: Cell) -> int {
    match cell {
        Cell::Optarg => 0,
        Cell::Optind => 1,
        Cell::Opterr => 1,
        Cell::Optopt => 0,
    }
}

/// `ptr` is where the global lies, which is made where there was none.
pub open spec fn cell_located(
    before: Environment,
    after: Environment,
    cell: Cell,
    ptr: MutPtr,
) -> bool {
    match cell_ptr(before.libc_state.getopt, cell) {
        Some(p) => p == ptr && after == before,
        None => cell_made(before, after, cell, ptr),
    }
}

/// The global was made in a new chunk at `ptr`.
pub open spec fn cell_made(
    before: Environment,
    after: Environment,
    cell: Cell,
    ptr: MutPtr,
) -> bool {
    &&& after == before.with_mem(after.mem).with_getopt(
        with_cell_ptr(before.libc_state.getopt, cell, ptr),
    )
    &&& after.mem.placed(before.mem, ptr, le_bytes(cell_init(cell), 4))
}

/// The global was given the value `v`.
pub open spec fn cell_set(before: Environment, after: Environment, cell: Cell, v: int) -> bool {
    exists|mid: Environment, ptr: MutPtr| #[trigger]
        cell_located(before, mid, cell, ptr) && after == mid.with_mem(after.mem)
            && after.mem.stored(mid.mem, ptr as int, le_bytes(unsigned32(v), 4))
}

/// Each global that is there lies in guest memory.
pub open spec fn cells_valid(env: Environment) -> bool {
    forall|cell: Cell|
        (#[trigger] cell_ptr(env.libc_state.getopt, cell)) matches Some(p) ==> env.mem.valid(
            p as int,
            4,
        )
}

/// The global is there, or the heap has room for it.
pub open spec fn cell_room(env: Environment, cell: Cell) -> bool {
    cell_ptr(env.libc_state.getopt, cell) is None ==> env.mem.has_room(4)
}

fn get_cell_ptr(s: &State, cell: Cell) -> (r: Option<MutPtr>)
    ensures
        r == cell_ptr(*s, cell),
{
    match cell {
        Cell::Optarg => s.optarg_ptr,
        Cell::Optind => s.optind_ptr,
        Cell::Opterr => s.opterr_ptr,
        Cell::Optopt => s.optopt_ptr,
    }
}

/// Makes a global in a new chunk.
fn make_cell(env: &mut Environment, cell: Cell) -> (r: MutPtr)
    requires
        old(env).wf(),
        cells_valid(*old(env)),
        old(env).mem.has_room(4),
    ensures
        final(env).wf(),
        cells_valid(*final(env)),
        cell_made(*old(env), *final(env), cell, r),
        final(env).mem.valid(r as int, 4),
        final(env).mem@.len() == old(env).mem@.len(),
{
    let init: u8 = match cell {
        Cell::Optarg => 0,
        Cell::Optind => 1,
        Cell::Opterr => 1,
        Cell::Optopt => 0,
    };
    let bytes: Vec<u8> = vec![init, 0, 0, 0];
    proof {
        crate::mem::lemma_le_bytes_4(cell_init(cell));
        assert(bytes@ =~= le_bytes(cell_init(cell), 4));
    }
    let ptr: u32 = env.mem.alloc_and_write(&bytes);
    match cell {
        Cell::Optarg => {
            env.libc_state.getopt.optarg_ptr = Some(ptr);
        },
        Cell::Optind => {
            env.libc_state.getopt.optind_ptr = Some(ptr);
        },
        Cell::Opterr => {
            env.libc_state.getopt.opterr_ptr = Some(ptr);
        },
        Cell::Optopt => {
            env.libc_state.getopt.optopt_ptr = Some(ptr);
        },
    }
    proof {
        assert forall|c: Cell|
            (#[trigger] cell_ptr(env.libc_state.getopt, c)) matches Some(p) ==> env.mem.valid(
                p as int,
                4,
            ) by {
            assert(cell_ptr(old(env).libc_state.getopt, c) matches Some(p) ==> old(env).mem.valid(
                p as int,
                4,
            ));
        }
    }
    ptr
}

/// Where the global lies, which is made where there was none.
fn locate_cell(env: &mut Environment, cell: Cell) -> (r: MutPtr)
    requires
        old(env).wf(),
        cells_valid(*old(env)),
        cell_room(*old(env), cell),
    ensures
        final(env).wf(),
        cells_valid(*final(env)),
        cell_located(*old(env), *final(env), cell, r),
        cell_ptr(final(env).libc_state.getopt, cell) == Some(r),
        final(env).mem.valid(r as int, 4),
        final(env).mem@.len() == old(env).mem@.len(),
{
    match get_cell_ptr(&env.libc_state.getopt, cell) {
        Some(p) => p,
        None => make_cell(env, cell),
    }
}

/// Gives the global the value `v`.
fn set_cell(env: &mut Environment, cell: Cell, v: i32)
    requires
        old(env).wf(),
        cells_valid(*old(env)),
        cell_room(*old(env), cell),
    ensures
        final(env).wf(),
        cells_valid(*final(env)),
        cell_set(*old(env), *final(env), cell, v as int),
        final(env).mem@.len() == old(env).mem@.len(),
        forall|c: Cell|
            cell_ptr(old(env).libc_state.getopt, c) is Some ==> (#[trigger] cell_ptr(
                final(env).libc_state.getopt,
                c,
            )) is Some,
{
    let ptr: u32 = locate_cell(env, cell);
    let ghost mid = *env;
    env.mem.write_i32(ptr, v);
    assert(cell_located(*old(env), mid, cell, ptr));
}

/// The address of `optarg` for a program that links against it.
pub fn optarg_ptr(env: &mut Environment) -> (r: MutPtr)
    requires
        old(env).wf(),
        cells_valid(*old(env)),
        old(env).mem.has_room(4),
    ensures
        final(env).wf(),
        cell_made(*old(env), *final(env), Cell::Optarg, r),
{
    make_cell(env, Cell::Optarg)
}

/// The address of `optind` for a program that links against it.
pub fn optind_ptr(env: &mut Environment) -> (r: MutPtr)
    requires
        old(env).wf(),
        cells_valid(*old(env)),
        old(env).mem.has_room(4),
    ensures
        final(env).wf(),
        cell_made(*old(env), *final(env), Cell::Optind, r),
{
    make_cell(env, Cell::Optind)
}

/// The address of `opterr` for a program that links against it.
pub fn opterr_ptr(env: &mut Environment) -> (r: MutPtr)
    requires
        old(env).wf(),
        cells_valid(*old(env)),
        old(env).mem.has_room(4),
    ensures
        final(env).wf(),
        cell_made(*old(env), *final(env), Cell::Opterr, r),
{
    make_cell(env, Cell::Opterr)
}

/// The address of `optopt` for a program that links against it.
pub fn optopt_ptr(env: &mut Environment) -> (r: MutPtr)
    requires
        old(env).wf(),
        cells_valid(*old(env)),
        old(env).mem.has_room(4),
    ensures
        final(env).wf(),
        cell_made(*old(env), *final(env), Cell::Optopt, r),
{
    make_cell(env, Cell::Optopt)
}

/// `optarg` was dealt with as `arg` says; a text goes to a new chunk.
pub open spec fn arg_applied(before: Environment, after: Environment, arg: ArgView) -> bool {
    match arg {
        ArgView::Keep => after == before,
        ArgView::Clear => cell_set(before, after, Cell::Optarg, 0),
        ArgView::Text(t) => exists|mid: Environment, ptr: u32| #[trigger]
            text_placed(before, mid, ptr, t) && cell_set(
                mid,
                after,
                Cell::Optarg,
                signed32(ptr as int),
            ),
    }
}

/// The text `t` was put into a new chunk at `ptr`, as a C string.
pub open spec fn text_placed(
    before: Environment,
    after: Environment,
    ptr: u32,
    t: Seq<char>,
) -> bool {
    &&& after == before.with_mem(after.mem)
    &&& after.mem.placed(before.mem, ptr, encode_utf8(t).push(0))
}

/// The heap has room for what dealing with `optarg` makes: the text, and then
/// the global where there is none.
pub open spec fn arg_ready(env: Environment, arg: ArgView) -> bool {
    match arg {
        ArgView::Keep => true,
        ArgView::Clear => cell_room(env, Cell::Optarg),
        ArgView::Text(t) => env.mem.has_room(encode_utf8(t).len() as int + 1) && optarg_room(
            env,
            t,
        ),
    }
}

/// Once the text is in the heap there is room for `optarg`.
pub open spec fn optarg_room(env: Environment, t: Seq<char>) -> bool {
    forall|mid: Environment, ptr: u32| #[trigger]
        text_placed(env, mid, ptr, t) ==> cell_room(mid, Cell::Optarg)
}

/// Deals with `optarg` as `arg` says.
fn apply_arg(env: &mut Environment, arg: &ArgAction)
    requires
        old(env).wf(),
        cells_valid(*old(env)),
        arg_ready(*old(env), arg.view()),
    ensures
        final(env).wf(),
        cells_valid(*final(env)),
        arg_applied(*old(env), *final(env), arg.view()),
        final(env).mem@.len() == old(env).mem@.len(),
        forall|c: Cell|
            cell_ptr(old(env).libc_state.getopt, c) is Some ==> (#[trigger] cell_ptr(
                final(env).libc_state.getopt,
                c,
            )) is Some,
        arg.view() is Keep ==> *final(env) == *old(env),
{
    match arg {
        ArgAction::Keep => {},
        ArgAction::Clear => {
            set_cell(env, Cell::Optarg, 0);
        },
        ArgAction::Text(t) => {
            let bytes: Vec<u8> = utf8_bytes(t);
            proof {
                let size = encode_utf8(t@).len() as int + 1;
                let a = choose|a: int| #[trigger] env.mem.fits(a, size);
                assert(env.mem.fits(a, size));
            }
            let ptr: u32 = env.mem.alloc_and_write_cstr(&bytes);
            let ghost mid = *env;
            proof {
                assert(text_placed(*old(env), mid, ptr, t@));
                lemma_cells_kept(*old(env), mid);
            }
            set_cell(env, Cell::Optarg, to_signed32(ptr));
        },
    }
}

/// The global was looked at, which makes it where there was none.
pub open spec fn cell_seen(before: Environment, after: Environment, cell: Cell) -> bool {
    exists|ptr: MutPtr| #[trigger] cell_located(before, after, cell, ptr)
}

/// `optopt` was set, and `opterr` was looked at.
pub open spec fn option_refused(before: Environment, after: Environment, c: int) -> bool {
    exists|mid: Environment| #[trigger]
        cell_set(before, mid, Cell::Optopt, c) && cell_seen(mid, after, Cell::Opterr)
}

/// `optopt` was set, and `opterr` was looked at, where an option was refused.
pub open spec fn refusal_applied(
    before: Environment,
    after: Environment,
    optopt: Option<int>,
) -> bool {
    match optopt {
        None => after == before,
        Some(c) => option_refused(before, after, c),
    }
}

/// What a scan decided was applied to the globals.
pub open spec fn step_applied(before: Environment, after: Environment, step: StepView) -> bool {
    let start = before.with_getopt(
        State { next_char_idx: step.next as usize, ..before.libc_state.getopt },
    );
    exists|with_arg: Environment, refused: Environment|
        {
            &&& #[trigger] arg_applied(start, with_arg, step.arg)
            &&& #[trigger] refusal_applied(with_arg, refused, step.optopt)
            &&& cell_set(refused, after, Cell::Optind, step.ind)
        }
}

/// The heap has room for what refusing an option makes.
pub open spec fn refusal_ready(env: Environment, optopt: Option<int>) -> bool {
    match optopt {
        None => true,
        Some(c) => cell_room(env, Cell::Optopt) && opterr_room(env, c),
    }
}

/// Once `optopt` is set there is room for `opterr`.
pub open spec fn opterr_room(env: Environment, c: int) -> bool {
    forall|mid: Environment| #[trigger]
        cell_set(env, mid, Cell::Optopt, c) ==> cell_room(mid, Cell::Opterr)
}

/// The heap has room for what applying the decision of a scan makes.
pub open spec fn step_ready(env: Environment, step: StepView) -> bool {
    let start = env.with_getopt(
        State { next_char_idx: step.next as usize, ..env.libc_state.getopt },
    );
    &&& arg_ready(start, step.arg)
    &&& forall|with_arg: Environment| #[trigger]
        arg_applied(start, with_arg, step.arg) ==> refusal_ready(with_arg, step.optopt)
}

/// Applies what a scan decided to the globals.
fn apply_step(env: &mut Environment, step: &ShortStep)
    requires
        old(env).wf(),
        cells_valid(*old(env)),
        cell_ptr(old(env).libc_state.getopt, Cell::Optind) is Some,
        step_ready(*old(env), step.view()),
    ensures
        final(env).wf(),
        cells_valid(*final(env)),
        step_applied(*old(env), *final(env), step.view()),
{
    env.libc_state.getopt.next_char_idx = step.next;
    let ghost start = *env;
    proof {
        assert forall|c: Cell| #[trigger] cell_ptr(env.libc_state.getopt, c) == cell_ptr(
            old(env).libc_state.getopt,
            c,
        ) by {}
    }
    apply_arg(env, &step.arg);
    let ghost with_arg = *env;
    assert(arg_applied(start, with_arg, step.view().arg));
    if let Some(c) = step.optopt {
        assert(refusal_ready(with_arg, Some(c as int)));
        set_cell(env, Cell::Optopt, c);
        let ghost mid = *env;
        assert(cell_set(with_arg, mid, Cell::Optopt, c as int));
        let ptr: u32 = locate_cell(env, Cell::Opterr);
        assert(cell_located(mid, *env, Cell::Opterr, ptr));
        assert(cell_seen(mid, *env, Cell::Opterr));
        assert(option_refused(with_arg, *env, c as int));
    }
    let ghost refused = *env;
    assert(refusal_applied(with_arg, refused, step.view().optopt));
    assert(cell_ptr(env.libc_state.getopt, Cell::Optind) is Some);
    set_cell(env, Cell::Optind, step.ind);
}

/// The value of `optind`, which lies at `ptr`.
pub open spec fn optind_at(env: Environment, ptr: MutPtr) -> int {
    signed32(le_u32(env.mem@, ptr as int))
}

/// What the short-option scanner does.
pub open spec fn getopt_done(
    before: Environment,
    after: Environment,
    argc: int,
    argv: int,
    opts: Seq<char>,
    r: int,
) -> bool {
    exists|located: Environment, ptr: MutPtr| #[trigger]
        cell_located(before, located, Cell::Optind, ptr) && ({
            let step = short_step(
                located.mem,
                argv,
                argc,
                opts,
                optind_at(located, ptr),
                located.libc_state.getopt.next_char_idx as int,
            );
            r == step.ret && step_applied(located, after, step)
        })
}

/// What the short-option scanner reads once `optind` is located, with the value
/// `ind`, is in guest memory, and the heap has room for what it makes.
pub open spec fn short_ready(
    located: Environment,
    argc: int,
    argv: int,
    opts: Seq<char>,
    ind: int,
) -> bool {
    let next = located.libc_state.getopt.next_char_idx as int;
    &&& step_readable(located.mem, argc, argv, opts, ind, next)
    &&& step_ready(located, short_step(located.mem, argv, argc, opts, ind, next))
}

/// What the short-option scanner reads is in guest memory, and the heap has
/// room for what it makes.
pub open spec fn getopt_ready(env: Environment, argc: int, argv: int, opts: Seq<char>) -> bool {
    &&& env.wf()
    &&& cells_valid(env)
    &&& cell_room(env, Cell::Optind)
    &&& forall|located: Environment, ptr: MutPtr| #[trigger]
        cell_located(env, located, Cell::Optind, ptr) ==> short_ready(
            located,
            argc,
            argv,
            opts,
            optind_at(located, ptr),
        )
}

/// Short-option scanner used by both `getopt()` and the short-option fallback
/// of `getopt_long()`.
pub fn do_getopt(env: &mut Environment, argc: i32, argv: MutPtr, opts: &Vec<char>) -> (r: i32)
    requires
        getopt_ready(*old(env), argc as int, argv as int, opts@),
    ensures
        final(env).wf(),
        cells_valid(*final(env)),
        getopt_done(*old(env), *final(env), argc as int, argv as int, opts@, r as int),
{
    let ptr: u32 = locate_cell(env, Cell::Optind);
    let ghost located = *env;
    assert(cell_located(*old(env), located, Cell::Optind, ptr));
    let ind: i32 = env.mem.read_i32(ptr);
    let next: usize = env.libc_state.getopt.next_char_idx;
    assert(short_ready(located, argc as int, argv as int, opts@, ind as int));
    let step: ShortStep = scan_short(&env.mem, argc, argv, opts, ind, next);
    apply_step(env, &step);
    step.ret
}

/// The option string at `ptr`; one that is not text counts as empty.
pub open spec fn opts_at(mem: Mem, ptr: int) -> Seq<char> {
    if valid_utf8(mem.cstr(ptr)) {
        decode_utf8(mem.cstr(ptr))
    } else {
        Seq::empty()
    }
}

fn read_opts(mem: &Mem, ptr: ConstPtr) -> (r: Vec<char>)
    requires
        mem.wf(),
        mem.valid(ptr as int, 0),
    ensures
        r@ == opts_at(*mem, ptr as int),
{
    match mem.cstr_at_utf8(ptr) {
        Some(s) => chars_of(s.as_str()),
        None => {
            let r: Vec<char> = Vec::new();
            assert(r@ =~= Seq::empty());
            r
        },
    }
}

/// `int getopt(int argc, char *const argv[], const char *optstring);`
pub fn getopt(env: &mut Environment, argc: i32, argv: MutPtr, optstring: ConstPtr) -> (r: i32)
    requires
        old(env).mem.valid(optstring as int, 0),
        getopt_ready(
            *old(env),
            argc as int,
            argv as int,
            opts_at(old(env).mem, optstring as int),
        ),
    ensures
        final(env).wf(),
        cells_valid(*final(env)),
        getopt_done(
            *old(env),
            *final(env),
            argc as int,
            argv as int,
            opts_at(old(env).mem, optstring as int),
            r as int,
        ),
{
    let opts: Vec<char> = read_opts(&env.mem, optstring);
    do_getopt(env, argc, argv, &opts)
}

/// Mirrors `struct option` from `<getopt.h>`:
/// ```c
/// struct option {
///     const char *name;
///     int         has_arg; // no_argument=0, required_argument=1, optional_argument=2
///     int        *flag;
///     int         val;
/// };
/// ```
#[derive(Clone, Copy, Debug, PartialEq, Eq, Structural)]
pub struct GuestOption {
    pub name: ConstPtr,
    pub has_arg: i32,
    pub flag: MutPtr,
    pub val: i32,
}

pub const NO_ARGUMENT: i32 = 0;

pub const REQUIRED_ARGUMENT: i32 = 1;

pub const OPTIONAL_ARGUMENT: i32 = 2;

/// The option number `i` of the table at `base`.
pub open spec fn long_option(mem: Mem, base: int, i: int) -> GuestOption {
    GuestOption {
        name: le_u32(mem@, base + 16 * i) as u32,
        has_arg: signed32(le_u32(mem@, base + 16 * i + 4)) as i32,
        flag: le_u32(mem@, base + 16 * i + 8) as u32,
        val: signed32(le_u32(mem@, base + 16 * i + 12)) as i32,
    }
}

/// The table at `base` has `n` options, and one without a name behind them.
pub open spec fn options_end(mem: Mem, base: int, n: int) -> bool {
    &&& 0 <= n
    &&& mem.valid(base, 16 * (n + 1))
    &&& long_option(mem, base, n).name == 0
    &&& forall|i: int|
        #![trigger long_option(mem, base, i)]
        0 <= i < n ==> {
            &&& long_option(mem, base, i).name != 0
            &&& mem.valid(long_option(mem, base, i).name as int, 0)
        }
}

/// The name of the option number `i`.
pub open spec fn long_name(mem: Mem, base: int, i: int) -> Seq<char> {
    opts_at(mem, long_option(mem, base, i).name as int)
}

/// `full` starts with `name`.
pub open spec fn starts_with(full: Seq<char>, name: Seq<char>) -> bool {
    full.len() >= name.len() && full.take(name.len() as int) == name
}

/// The first option from `from` on, of `n`, that is called `name`.
pub open spec fn exact_index(
    mem: Mem,
    base: int,
    name: Seq<char>,
    n: int,
    from: int,
) -> Option<int>
    decreases n - from,
{
    if from < 0 || from >= n {
        None
    } else if long_name(mem, base, from) == name {
        Some(from)
    } else {
        exact_index(mem, base, name, n, from + 1)
    }
}

/// How many of the first `n` options have a name that starts with `name`.
pub open spec fn prefix_count(mem: Mem, base: int, name: Seq<char>, n: int) -> int
    decreases n,
{
    if n <= 0 {
        0
    } else {
        prefix_count(mem, base, name, n - 1) + if starts_with(long_name(mem, base, n - 1), name) {
            1int
        } else {
            0
        }
    }
}

/// The last of the first `n` options whose name starts with `name`.
pub open spec fn last_prefix(mem: Mem, base: int, name: Seq<char>, n: int) -> int
    decreases n,
{
    if n <= 0 {
        -1
    } else if starts_with(long_name(mem, base, n - 1), name) {
        n - 1
    } else {
        last_prefix(mem, base, name, n - 1)
    }
}

/// Which option a name stands for.
#[derive(Clone, Copy, Debug, PartialEq, Eq, Structural)]
pub enum LongMatch {
    NotFound,
    Ambiguous,
    Found(u32),
}

/// The option that `name` stands for among `n`: the one that is called so, or
/// else the only one whose name starts so.
pub open spec fn match_long(mem: Mem, base: int, name: Seq<char>, n: int) -> LongMatch {
    match exact_index(mem, base, name, n, 0) {
        Some(i) => LongMatch::Found(i as u32),
        None => if prefix_count(mem, base, name, n) == 0 {
            LongMatch::NotFound
        } else if prefix_count(mem, base, name, n) == 1 {
            LongMatch::Found(last_prefix(mem, base, name, n) as u32)
        } else {
            LongMatch::Ambiguous
        },
    }
}

/// An option that is called `name` is found, however many other names start
/// with it.
pub proof fn law_exact_name_wins(mem: Mem, base: int, name: Seq<char>, n: int, i: int)
    requires
        0 <= i < n <= u32::MAX,
        long_name(mem, base, i) == name,
    ensures
        match_long(mem, base, name, n) matches LongMatch::Found(k) && k <= i && long_name(
            mem,
            base,
            k as int,
        ) == name,
{
    lemma_exact_index(mem, base, name, n, 0, i);
}

proof fn lemma_exact_index(mem: Mem, base: int, name: Seq<char>, n: int, from: int, i: int)
    requires
        0 <= from <= i < n,
        long_name(mem, base, i) == name,
    ensures
        exact_index(mem, base, name, n, from) matches Some(k) && from <= k <= i && long_name(
            mem,
            base,
            k,
        ) == name,
    decreases i - from,
{
    if from < i && long_name(mem, base, from) != name {
        lemma_exact_index(mem, base, name, n, from + 1, i);
    }
}

proof fn lemma_exact_index_is(mem: Mem, base: int, name: Seq<char>, n: int, from: int, k: int)
    requires
        0 <= from <= k <= n,
        forall|i: int| from <= i < k ==> (#[trigger] long_name(mem, base, i)) != name,
        k < n ==> long_name(mem, base, k) == name,
    ensures
        exact_index(mem, base, name, n, from) == if k < n {
            Some(k)
        } else {
            None
        },
    decreases k - from,
{
    if from < k {
        lemma_exact_index_is(mem, base, name, n, from + 1, k);
    }
}

proof fn lemma_prefix(mem: Mem, base: int, name: Seq<char>, n: int)
    ensures
        prefix_count(mem, base, name, n) >= 0,
        prefix_count(mem, base, name, n) > 0 ==> 0 <= last_prefix(mem, base, name, n) < n,
    decreases n,
{
    if n > 0 {
        lemma_prefix(mem, base, name, n - 1);
    }
}

/// Reads one `struct option` of a guest array.
pub fn read_option(mem: &Mem, base: ConstPtr, index: u32) -> (r: GuestOption)
    requires
        mem.wf(),
        mem.valid(base as int, 16 * (index + 1)),
    ensures
        r == long_option(*mem, base as int, index as int),
{
    let entry: u32 = base + 16 * index;
    GuestOption {
        name: mem.read_u32(entry),
        has_arg: mem.read_i32(entry + 4),
        flag: mem.read_u32(entry + 8),
        val: mem.read_i32(entry + 12),
    }
}

fn chars_start_with(full: &Vec<char>, name: &Vec<char>) -> (r: bool)
    ensures
        r == starts_with(full@, name@),
{
    let n: usize = name.len();
    if full.len() < n {
        return false;
    }
    let mut i: usize = 0;
    while i < n
        invariant
            i <= n == name@.len() <= full@.len(),
            forall|k: int| 0 <= k < i ==> full@[k] == name@[k],
        decreases n - i,
    {
        if full[i] != name[i] {
            assert(full@.take(n as int)[i as int] != name@[i as int]);
            return false;
        }
        i = i + 1;
    }
    assert(full@.take(n as int) =~= name@);
    true
}

/// Walks the table until the option without a name, looking for an exact or
/// unambiguous-prefix match.
pub fn find_long(mem: &Mem, base: ConstPtr, name: &Vec<char>) -> (r: LongMatch)
    requires
        mem.wf(),
        exists|n: int| #[trigger] options_end(*mem, base as int, n),
    ensures
        forall|n: int| #[trigger]
            options_end(*mem, base as int, n) ==> r == match_long(*mem, base as int, name@, n) && (
            r matches LongMatch::Found(k) ==> k < n),
{
    let ghost n = choose|n: int| #[trigger] options_end(*mem, base as int, n);
    let ghost b = base as int;
    proof {
        assert forall|m: int| #[trigger] options_end(*mem, base as int, m) implies m == n by {
            lemma_options_end_unique(*mem, base as int, m, n);
        }
    }
    let mut found: Option<u32> = None;
    let mut ambiguous: bool = false;
    let mut i: u32 = 0;
    loop
        invariant
            mem.wf(),
            b == base,
            options_end(*mem, b, n),
            forall|m: int| #[trigger] options_end(*mem, base as int, m) ==> m == n,
            0 <= i <= n,
            forall|k: int| 0 <= k < i ==> (#[trigger] long_name(*mem, b, k)) != name@,
            prefix_count(*mem, b, name@, i as int) >= 0,
            found == (if prefix_count(*mem, b, name@, i as int) > 0 {
                Some(last_prefix(*mem, b, name@, i as int) as u32)
            } else {
                None
            }),
            ambiguous == (prefix_count(*mem, b, name@, i as int) > 1),
        ensures
            i == n,
        decreases n - i,
    {
        let opt: GuestOption = read_option(mem, base, i);
        assert(opt == long_option(*mem, b, i as int));
        if opt.name == 0 {
            assert(i == n);
            break;
        }
        assert(i < n);
        let opt_name: Vec<char> = read_opts(mem, opt.name);
        if same_chars(&opt_name, name) {
            proof {
                lemma_exact_index_is(*mem, b, name@, n, 0, i as int);
            }
            return LongMatch::Found(i);
        }
        if chars_start_with(&opt_name, name) {
            if found.is_some() {
                ambiguous = true;
            }
            found = Some(i);
        }
        i = i + 1;
    }
    proof {
        lemma_exact_index_is(*mem, b, name@, n, 0, n);
        lemma_prefix(*mem, b, name@, n);
    }
    if ambiguous {
        return LongMatch::Ambiguous;
    }
    match found {
        Some(k) => LongMatch::Found(k),
        None => LongMatch::NotFound,
    }
}

proof fn lemma_options_end_unique(mem: Mem, base: int, m: int, n: int)
    requires
        options_end(mem, base, m),
        options_end(mem, base, n),
    ensures
        m == n,
{
    if m < n {
        assert(long_option(mem, base, m).name != 0);
    } else if n < m {
        assert(long_option(mem, base, n).name != 0);
    }
}

/// The two dashes that introduce a long option.
pub open spec fn two_dashes(w: Seq<char>) -> bool {
    w.len() >= 2 && w[0] == '-' && w[1] == '-'
}

/// `w` is a long option; with `long_only` a single dash introduces one too.
pub open spec fn is_long_word(w: Seq<char>, long_only: bool) -> bool {
    (two_dashes(w) && w.len() > 2) || (long_only && !two_dashes(w) && w.len() > 1 && w[0] == '-')
}

/// The word without its dashes.
pub open spec fn without_dashes(w: Seq<char>) -> Seq<char> {
    if two_dashes(w) {
        w.skip(2)
    } else {
        w.skip(1)
    }
}

/// Where the first equals sign stands, from `from` on, or the end.
pub open spec fn equals_index(s: Seq<char>, from: int) -> int
    decreases s.len() - from,
{
    if from < 0 || from >= s.len() || s[from] == '=' {
        from
    } else {
        equals_index(s, from + 1)
    }
}

/// The name in a long option: what stands before an equals sign.
pub open spec fn option_name(w: Seq<char>) -> Seq<char> {
    let rest = without_dashes(w);
    rest.take(equals_index(rest, 0))
}

/// The argument in a long option: what stands behind an equals sign.
pub open spec fn option_value(w: Seq<char>) -> Option<Seq<char>> {
    let rest = without_dashes(w);
    let i = equals_index(rest, 0);
    if i < rest.len() {
        Some(rest.skip(i + 1))
    } else {
        None
    }
}

proof fn lemma_equals_index(s: Seq<char>, from: int)
    requires
        0 <= from <= s.len(),
    ensures
        from <= equals_index(s, from) <= s.len(),
    decreases s.len() - from,
{
    if from < s.len() && s[from] != '=' {
        lemma_equals_index(s, from + 1);
    }
}

/// The index of a matching option was stored for the guest.
pub open spec fn index_stored(
    before: Environment,
    after: Environment,
    longindex: int,
    i: int,
) -> bool {
    if longindex == 0 {
        after == before
    } else {
        &&& after == before.with_mem(after.mem)
        &&& after.mem.stored(before.mem, longindex, le_bytes(i, 4))
    }
}

/// The option's value was given back: returned, or stored where its flag is.
pub open spec fn value_given(
    before: Environment,
    after: Environment,
    opt: GuestOption,
    r: int,
) -> bool {
    if opt.flag == 0 {
        r == opt.val && after == before
    } else {
        &&& r == 0
        &&& after == before.with_mem(after.mem)
        &&& after.mem.stored(before.mem, opt.flag as int, le_bytes(unsigned32(opt.val as int), 4))
    }
}

/// A required argument was taken from the next word.
pub open spec fn next_word_taken(
    before: Environment,
    after: Environment,
    opt: GuestOption,
    text: Seq<char>,
    ind: int,
    r: int,
) -> bool {
    exists|moved: Environment| #[trigger]
        cell_set(before, moved, Cell::Optind, ind + 2) && (if opt.flag == 0 {
            r == opt.val && arg_applied(moved, after, ArgView::Text(text))
        } else {
            value_given(moved, after, opt, r)
        })
}

/// The option was taken with what its own word holds.
pub open spec fn own_word_taken(
    before: Environment,
    after: Environment,
    opt: GuestOption,
    arg: ArgView,
    ind: int,
    r: int,
) -> bool {
    exists|with_arg: Environment, moved: Environment|
        {
            &&& #[trigger] arg_applied(before, with_arg, arg)
            &&& #[trigger] cell_set(with_arg, moved, Cell::Optind, ind + 1)
            &&& value_given(moved, after, opt, r)
        }
}

/// What becomes of `optarg` for an option taken with its own word.
pub open spec fn own_arg(opt: GuestOption, value: Option<Seq<char>>) -> ArgView {
    if value is Some && (opt.has_arg == REQUIRED_ARGUMENT || opt.has_arg == OPTIONAL_ARGUMENT) {
        ArgView::Text(value->0)
    } else {
        ArgView::Clear
    }
}

/// The option is passed over as an error.
pub open spec fn option_rejected(
    before: Environment,
    after: Environment,
    ind: int,
    r: int,
) -> bool {
    r == 0x3f && cell_set(before, after, Cell::Optind, ind + 1)
}

/// What is done with the option `opt` once its index is stored.
pub open spec fn option_taken(
    before: Environment,
    after: Environment,
    argc: int,
    argv: int,
    opt: GuestOption,
    value: Option<Seq<char>>,
    ind: int,
    r: int,
) -> bool {
    if opt.has_arg == NO_ARGUMENT && value is Some {
        option_rejected(before, after, ind, r)
    } else if opt.has_arg == REQUIRED_ARGUMENT && value is None {
        match word(before.mem, argv, argc, ind + 1) {
            Some(text) => next_word_taken(before, after, opt, text, ind, r),
            None => option_rejected(before, after, ind, r),
        }
    } else {
        own_word_taken(before, after, opt, own_arg(opt, value), ind, r)
    }
}

/// What is done with the option number `i`.
pub open spec fn long_found(
    before: Environment,
    after: Environment,
    argc: int,
    argv: int,
    longopts: int,
    longindex: int,
    i: int,
    value: Option<Seq<char>>,
    ind: int,
    r: int,
) -> bool {
    exists|stored: Environment| #[trigger]
        index_stored(before, stored, longindex, i) && option_taken(
            stored,
            after,
            argc,
            argv,
            long_option(before.mem, longopts, i),
            value,
            ind,
            r,
        )
}

/// No option has the name: `opterr` is looked at, and the word passed over.
pub open spec fn long_unknown(before: Environment, after: Environment, ind: int, r: int) -> bool {
    exists|seen: Environment| #[trigger]
        cell_seen(before, seen, Cell::Opterr) && option_rejected(seen, after, ind, r)
}

/// What is done with the long option `w`, which stands at `ind` and whose name
/// was looked for.
pub open spec fn long_match_done(
    before: Environment,
    after: Environment,
    argc: int,
    argv: int,
    optstring: int,
    longopts: int,
    longindex: int,
    w: Seq<char>,
    ind: int,
    found: LongMatch,
    r: int,
) -> bool {
    match found {
        LongMatch::Ambiguous => option_rejected(before, after, ind, r),
        LongMatch::NotFound => if two_dashes(w) {
            long_unknown(before, after, ind, r)
        } else {
            getopt_done(before, after, argc, argv, opts_at(before.mem, optstring), r)
        },
        LongMatch::Found(i) => long_found(
            before,
            after,
            argc,
            argv,
            longopts,
            longindex,
            i as int,
            option_value(w),
            ind,
            r,
        ),
    }
}

/// What is done with the word `w`, which stands at `ind`. The table of options
/// is looked at only for a long option that has a name.
pub open spec fn long_word_done(
    before: Environment,
    after: Environment,
    argc: int,
    argv: int,
    optstring: int,
    longopts: int,
    longindex: int,
    long_only: bool,
    w: Seq<char>,
    ind: int,
    r: int,
) -> bool {
    if !is_long_word(w, long_only) {
        getopt_done(before, after, argc, argv, opts_at(before.mem, optstring), r)
    } else if option_name(w).len() == 0 {
        r == -1 && cell_set(before, after, Cell::Optind, ind + 1)
    } else {
        exists|n: int| #[trigger]
            options_end(before.mem, longopts, n) && long_match_done(
                before,
                after,
                argc,
                argv,
                optstring,
                longopts,
                longindex,
                w,
                ind,
                match_long(before.mem, longopts, option_name(w), n),
                r,
            )
    }
}

/// What the long-option scanner does.
pub open spec fn getopt_long_done(
    before: Environment,
    after: Environment,
    argc: int,
    argv: int,
    optstring: int,
    longopts: int,
    longindex: int,
    long_only: bool,
    r: int,
) -> bool {
    exists|located: Environment, ptr: MutPtr| #[trigger]
        cell_located(before, located, Cell::Optind, ptr) && (match word(
            located.mem,
            argv,
            argc,
            optind_at(located, ptr),
        ) {
            None => r == -1 && after == located,
            Some(w) => long_word_done(
                located,
                after,
                argc,
                argv,
                optstring,
                longopts,
                longindex,
                long_only,
                w,
                optind_at(located, ptr),
                r,
            ),
        })
}

/// What taking the option `opt` reads and writes is guest memory, and the heap
/// has room for what it makes.
pub open spec fn option_ready(
    env: Environment,
    argc: int,
    argv: int,
    opt: GuestOption,
    value: Option<Seq<char>>,
    ind: int,
) -> bool {
    let flag_valid = opt.flag != 0 ==> env.mem.valid(opt.flag as int, 4);
    if opt.has_arg == NO_ARGUMENT && value is Some {
        true
    } else if opt.has_arg == REQUIRED_ARGUMENT && value is None {
        &&& word_readable(env.mem, argc, argv, ind + 1)
        &&& word(env.mem, argv, argc, ind + 1) matches Some(text) ==> {
            &&& flag_valid
            &&& opt.flag == 0 ==> forall|moved: Environment| #[trigger]
                cell_set(env, moved, Cell::Optind, ind + 2) ==> arg_ready(
                    moved,
                    ArgView::Text(text),
                )
        }
    } else {
        flag_valid && arg_ready(env, own_arg(opt, value))
    }
}

/// The option string is in guest memory, and the short-option scanner can be
/// called with it.
pub open spec fn fallback_ready(
    located: Environment,
    argc: int,
    argv: int,
    optstring: int,
    ind: int,
) -> bool {
    &&& located.mem.valid(optstring, 0)
    &&& short_ready(located, argc, argv, opts_at(located.mem, optstring), ind)
}

/// What is read, written and made for a long option whose name was looked for
/// is there.
pub open spec fn long_match_ready(
    located: Environment,
    argc: int,
    argv: int,
    optstring: int,
    longopts: int,
    longindex: int,
    w: Seq<char>,
    ind: int,
    found: LongMatch,
) -> bool {
    match found {
        LongMatch::Ambiguous => true,
        LongMatch::NotFound => if two_dashes(w) {
            cell_room(located, Cell::Opterr)
        } else {
            fallback_ready(located, argc, argv, optstring, ind)
        },
        LongMatch::Found(i) => {
            &&& longindex != 0 ==> located.mem.valid(longindex, 4)
            &&& forall|stored: Environment| #[trigger]
                index_stored(located, stored, longindex, i as int) ==> option_ready(
                    stored,
                    argc,
                    argv,
                    long_option(located.mem, longopts, i as int),
                    option_value(w),
                    ind,
                )
        },
    }
}

/// What is read, written and made for the word at `ind` is there: the option
/// string only for short options, and the table only for a long option that
/// has a name.
pub open spec fn long_ready(
    located: Environment,
    argc: int,
    argv: int,
    optstring: int,
    longopts: int,
    longindex: int,
    long_only: bool,
    ind: int,
) -> bool {
    &&& word_readable(located.mem, argc, argv, ind)
    &&& word(located.mem, argv, argc, ind) matches Some(w) ==> {
        if !is_long_word(w, long_only) {
            fallback_ready(located, argc, argv, optstring, ind)
        } else if option_name(w).len() == 0 {
            true
        } else {
            exists|n: int| #[trigger]
                options_end(located.mem, longopts, n) && long_match_ready(
                    located,
                    argc,
                    argv,
                    optstring,
                    longopts,
                    longindex,
                    w,
                    ind,
                    match_long(located.mem, longopts, option_name(w), n),
                )
        }
    }
}

/// What the long-option scanner reads and writes is guest memory, and the heap
/// has room for what it makes.
pub open spec fn getopt_long_ready(
    env: Environment,
    argc: int,
    argv: int,
    optstring: int,
    longopts: int,
    longindex: int,
    long_only: bool,
) -> bool {
    &&& env.wf()
    &&& cells_valid(env)
    &&& cell_room(env, Cell::Optind)
    &&& forall|located: Environment, ptr: MutPtr| #[trigger]
        cell_located(env, located, Cell::Optind, ptr) ==> long_ready(
            located,
            argc,
            argv,
            optstring,
            longopts,
            longindex,
            long_only,
            optind_at(located, ptr),
        )
}

/// Splits a long option at its equals sign.
fn split_option(w: &Vec<char>) -> (r: (Vec<char>, Option<Vec<char>>))
    requires
        w@.len() > 0,
    ensures
        r.0@ == option_name(w@),
        text_of(r.1) == option_value(w@),
{
    let from: usize = if w.len() >= 2 && w[0] == '-' && w[1] == '-' {
        2
    } else {
        1
    };
    let rest: Vec<char> = chars_from(w, from);
    let n: usize = rest.len();
    let mut name: Vec<char> = Vec::new();
    let mut i: usize = 0;
    while i < n && rest[i] != '='
        invariant
            i <= n == rest@.len(),
            name@ =~= rest@.take(i as int),
            equals_index(rest@, 0) == equals_index(rest@, i as int),
        decreases n - i,
    {
        name.push(rest[i]);
        i = i + 1;
    }
    assert(equals_index(rest@, 0) == i);
    if i < n {
        let value: Vec<char> = chars_from(&rest, i + 1);
        (name, Some(value))
    } else {
        (name, None)
    }
}

/// Gives the option's value back.
fn give_value(env: &mut Environment, opt: &GuestOption) -> (r: i32)
    requires
        old(env).wf(),
        cells_valid(*old(env)),
        opt.flag != 0 ==> old(env).mem.valid(opt.flag as int, 4),
    ensures
        final(env).wf(),
        cells_valid(*final(env)),
        value_given(*old(env), *final(env), *opt, r as int),
{
    if opt.flag != 0 {
        env.mem.write_i32(opt.flag, opt.val);
        proof {
            lemma_cells_kept(*old(env), *env);
        }
        0
    } else {
        opt.val
    }
}

proof fn lemma_cells_kept(before: Environment, after: Environment)
    requires
        cells_valid(before),
        after.libc_state.getopt == before.libc_state.getopt,
        after.mem@.len() == before.mem@.len(),
    ensures
        cells_valid(after),
{
    assert forall|c: Cell|
        (#[trigger] cell_ptr(after.libc_state.getopt, c)) matches Some(p) ==> after.mem.valid(
            p as int,
            4,
        ) by {
        assert(cell_ptr(before.libc_state.getopt, c) matches Some(p) ==> before.mem.valid(
            p as int,
            4,
        ));
    }
}

/// Does what is to be done with the option `opt`, whose own word is at `ind`.
fn take_option(
    env: &mut Environment,
    argc: i32,
    argv: MutPtr,
    opt: &GuestOption,
    value: Option<Vec<char>>,
    ind: i32,
) -> (r: i32)
    requires
        old(env).wf(),
        cells_valid(*old(env)),
        cell_ptr(old(env).libc_state.getopt, Cell::Optind) is Some,
        0 <= ind < argc,
        option_ready(
            *old(env),
            argc as int,
            argv as int,
            *opt,
            text_of(value),
            ind as int,
        ),
    ensures
        final(env).wf(),
        cells_valid(*final(env)),
        option_taken(
            *old(env),
            *final(env),
            argc as int,
            argv as int,
            *opt,
            text_of(value),
            ind as int,
            r as int,
        ),
{
    let ghost v: Option<Seq<char>> = text_of(value);
    if opt.has_arg == NO_ARGUMENT && value.is_some() {
        set_cell(env, Cell::Optind, ind + 1);
        return 0x3f;
    }
    if opt.has_arg == REQUIRED_ARGUMENT && value.is_none() {
        match read_arg(&env.mem, argv, argc, ind + 1) {
            Some(text) => {
                set_cell(env, Cell::Optind, ind + 2);
                let ghost moved = *env;
                assert(cell_set(*old(env), moved, Cell::Optind, ind + 2));
                if opt.flag == 0 {
                    let ghost t = text@;
                    let arg: ArgAction = ArgAction::Text(text);
                    apply_arg(env, &arg);
                    assert(arg_applied(moved, *env, ArgView::Text(t)));
                    return opt.val;
                }
                return give_value(env, opt);
            },
            None => {
                set_cell(env, Cell::Optind, ind + 1);
                return 0x3f;
            },
        }
    }
    let arg: ArgAction = match value {
        Some(t) => {
            if opt.has_arg == REQUIRED_ARGUMENT || opt.has_arg == OPTIONAL_ARGUMENT {
                ArgAction::Text(t)
            } else {
                ArgAction::Clear
            }
        },
        None => ArgAction::Clear,
    };
    assert(arg.view() == own_arg(*opt, v));
    apply_arg(env, &arg);
    let ghost with_arg = *env;
    assert(arg_applied(*old(env), with_arg, own_arg(*opt, v)));
    assert(cell_ptr(env.libc_state.getopt, Cell::Optind) is Some);
    set_cell(env, Cell::Optind, ind + 1);
    let ghost moved = *env;
    assert(cell_set(with_arg, moved, Cell::Optind, ind + 1));
    give_value(env, opt)
}

/// Once `optind` is located, the short-option scanner finds it at the same
/// place.
proof fn lemma_short_ready(
    located: Environment,
    argc: int,
    argv: int,
    opts: Seq<char>,
    ptr: MutPtr,
)
    requires
        located.wf(),
        cells_valid(located),
        cell_ptr(located.libc_state.getopt, Cell::Optind) == Some(ptr),
        short_ready(located, argc, argv, opts, optind_at(located, ptr)),
    ensures
        getopt_ready(located, argc, argv, opts),
{
    assert forall|l: Environment, p: MutPtr| #[trigger]
        cell_located(located, l, Cell::Optind, p) implies short_ready(
        l,
        argc,
        argv,
        opts,
        optind_at(l, p),
    ) by {
        assert(l == located && p == ptr);
    }
}

/// Implementation of `getopt_long()` and `getopt_long_only()`.
pub fn do_getopt_long(
    env: &mut Environment,
    argc: i32,
    argv: MutPtr,
    optstring: ConstPtr,
    longopts: ConstPtr,
    longindex: MutPtr,
    long_only: bool,
) -> (r: i32)
    requires
        getopt_long_ready(
            *old(env),
            argc as int,
            argv as int,
            optstring as int,
            longopts as int,
            longindex as int,
            long_only,
        ),
    ensures
        final(env).wf(),
        cells_valid(*final(env)),
        getopt_long_done(
            *old(env),
            *final(env),
            argc as int,
            argv as int,
            optstring as int,
            longopts as int,
            longindex as int,
            long_only,
            r as int,
        ),
{
    let ptr: u32 = locate_cell(env, Cell::Optind);
    let ghost located = *env;
    assert(cell_located(*old(env), located, Cell::Optind, ptr));
    let ind: i32 = env.mem.read_i32(ptr);
    assert(ind == optind_at(located, ptr));
    assert(long_ready(
        located,
        argc as int,
        argv as int,
        optstring as int,
        longopts as int,
        longindex as int,
        long_only,
        ind as int,
    ));
    let current: Vec<char> = match read_arg(&env.mem, argv, argc, ind) {
        Some(current) => current,
        None => {
            return -1;
        },
    };
    let ghost w = current@;
    let dashes: bool = current.len() >= 2 && current[0] == '-' && current[1] == '-';
    let is_long: bool = (dashes && current.len() > 2) || (long_only && !dashes && current.len() > 1
        && current[0] == '-');
    if !is_long {
        // Not a long option (or bare "--"/short option): defer to the
        // short-option scanner, which also handles end-of-options.
        let opts: Vec<char> = read_opts(&env.mem, optstring);
        proof {
            lemma_short_ready(located, argc as int, argv as int, opts@, ptr);
        }
        return do_getopt(env, argc, argv, &opts);
    }
    let (name, value): (Vec<char>, Option<Vec<char>>) = split_option(&current);
    if name.len() == 0 {
        set_cell(env, Cell::Optind, ind + 1);
        return -1;
    }
    let ghost m = choose|m: int| #[trigger]
        options_end(located.mem, longopts as int, m) && long_match_ready(
            located,
            argc as int,
            argv as int,
            optstring as int,
            longopts as int,
            longindex as int,
            w,
            ind as int,
            match_long(located.mem, longopts as int, option_name(w), m),
        );
    assert(options_end(located.mem, longopts as int, m));
    let found: LongMatch = find_long(&env.mem, longopts, &name);
    assert(found == match_long(located.mem, longopts as int, option_name(w), m));
    match found {
        LongMatch::Ambiguous => {
            set_cell(env, Cell::Optind, ind + 1);
            0x3f
        },
        LongMatch::NotFound => {
            if !dashes {
                let opts: Vec<char> = read_opts(&env.mem, optstring);
                proof {
                    lemma_short_ready(located, argc as int, argv as int, opts@, ptr);
                }
                return do_getopt(env, argc, argv, &opts);
            }
            let q: u32 = locate_cell(env, Cell::Opterr);
            let ghost seen = *env;
            assert(cell_located(located, seen, Cell::Opterr, q));
            assert(cell_seen(located, seen, Cell::Opterr));
            assert(cell_ptr(env.libc_state.getopt, Cell::Optind) is Some);
            set_cell(env, Cell::Optind, ind + 1);
            0x3f
        },
        LongMatch::Found(i) => {
            let opt: GuestOption = read_option(&env.mem, longopts, i);
            assert(opt == long_option(located.mem, longopts as int, i as int));
            if longindex != 0 {
                env.mem.write_u32(longindex, i);
            }
            let ghost stored = *env;
            proof {
                assert(index_stored(located, stored, longindex as int, i as int));
                lemma_cells_kept(located, stored);
            }
            let r: i32 = take_option(env, argc, argv, &opt, value, ind);
            assert(long_found(
                located,
                *env,
                argc as int,
                argv as int,
                longopts as int,
                longindex as int,
                i as int,
                option_value(w),
                ind as int,
                r as int,
            ));
            r
        },
    }
}

/// `int getopt_long(int argc, char *const argv[], const char *optstring,
/// const struct option *longopts, int *longindex);`
pub fn getopt_long(
    env: &mut Environment,
    argc: i32,
    argv: MutPtr,
    optstring: ConstPtr,
    longopts: ConstPtr,
    longindex: MutPtr,
) -> (r: i32)
    requires
        getopt_long_ready(
            *old(env),
            argc as int,
            argv as int,
            optstring as int,
            longopts as int,
            longindex as int,
            false,
        ),
    ensures
        final(env).wf(),
        cells_valid(*final(env)),
        getopt_long_done(
            *old(env),
            *final(env),
            argc as int,
            argv as int,
            optstring as int,
            longopts as int,
            longindex as int,
            false,
            r as int,
        ),
{
    do_getopt_long(env, argc, argv, optstring, longopts, longindex, false)
}

/// `int getopt_long_only(int argc, char *const argv[], const char *optstring,
/// const struct option *longopts, int *longindex);`
///
/// Same as `getopt_long()`, but a single leading `-` is also accepted
/// to introduce a long option (only falling back to short-option
/// parsing if no long-option name matches).
pub fn getopt_long_only(
    env: &mut Environment,
    argc: i32,
    argv: MutPtr,
    optstring: ConstPtr,
    longopts: ConstPtr,
    longindex: MutPtr,
) -> (r: i32)
    requires
        getopt_long_ready(
            *old(env),
            argc as int,
            argv as int,
            optstring as int,
            longopts as int,
            longindex as int,
            true,
        ),
    ensures
        final(env).wf(),
        cells_valid(*final(env)),
        getopt_long_done(
            *old(env),
            *final(env),
            argc as int,
            argv as int,
            optstring as int,
            longopts as int,
            longindex as int,
            true,
            r as int,
        ),
{
    do_getopt_long(env, argc, argv, optstring, longopts, longindex, true)
}

} // verus!

//! What options stand for, in terms of words, letters and the option string.
use vstd::prelude::*;
use vstd::utf8::{decode_utf8, encode_utf8, valid_utf8};

use crate::environment::Environment;
use crate::heap::lemma_chunk_added;
use crate::libc::getopt::{
    arg_applied, cell_located, cell_set, code, equals_index, exact_index, getopt_done,
    getopt_long_done, is_long_word, last_prefix, letter_index, long_found, long_match_done,
    long_name, long_option, match_long, option_at, option_name, option_taken, option_value,
    options_end, opts_at, own_arg, prefix_count, refusal_applied, short_step, starts_with,
    step_applied, text_placed, value_given, word, ArgView, Cell, GuestOption, LongMatch, State,
    StepView,
};
use crate::mem::{
    le_bytes, le_u32, lemma_cstr_len_is, lemma_le_bytes_4, signed32, unsigned32, Mem, MutPtr,
};

verus! {

/// The word number `i` of the arguments is text, and is `w`.
pub open spec fn word_is(mem: Mem, argv: int, argc: int, i: int, w: Seq<char>) -> bool {
    let p = le_u32(mem@, argv + 4 * i);
    &&& 0 <= i < argc
    &&& p != 0
    &&& valid_utf8(mem.cstr(p))
    &&& decode_utf8(mem.cstr(p)) == w
}

/// There is no word number `i` that is text.
pub open spec fn no_word(mem: Mem, argv: int, argc: int, i: int) -> bool {
    let p = le_u32(mem@, argv + 4 * i);
    i < 0 || i >= argc || p == 0 || !valid_utf8(mem.cstr(p))
}

/// The words are those that the pointers at `argv` lead to, `argc` of them.
pub proof fn law_words(mem: Mem, argv: int, argc: int, i: int, w: Seq<char>)
    ensures
        word(mem, argv, argc, i) == Some(w) <==> word_is(mem, argv, argc, i, w),
        word(mem, argv, argc, i) is None <==> no_word(mem, argv, argc, i),
{
}

/// The scan stands at the letter number `k` of the word `w`: it goes on there,
/// or it starts with a word that has a dash and is not the end of the options.
pub open spec fn stands_at(
    mem: Mem,
    argv: int,
    argc: int,
    ind: int,
    next: int,
    w: Seq<char>,
    k: int,
) -> bool {
    &&& word_is(mem, argv, argc, ind, w)
    &&& 0 < k < w.len()
    &&& next == k || (next == 0 && k == 1 && w[0] == '-' && !(w.len() == 2 && w[1] == '-'))
}

/// The letter `c` first stands at the place `i` of the option string, and is no
/// colon.
pub open spec fn listed_at(opts: Seq<char>, c: char, i: int) -> bool {
    &&& 0 <= i < opts.len()
    &&& opts[i] == c
    &&& c != ':'
    &&& forall|j: int| 0 <= j < i ==> #[trigger] opts[j] != c
}

/// The letter at the place `i` is followed by so many colons, of which two
/// count.
pub open spec fn colons_after(opts: Seq<char>, i: int) -> int {
    if i + 1 >= opts.len() || opts[i + 1] != ':' {
        0
    } else if i + 2 >= opts.len() || opts[i + 2] != ':' {
        1
    } else {
        2
    }
}

proof fn lemma_code(c: char)
    ensures
        code(c) == c as u32,
        code(c) >= 0,
{
    let v: u32 = c as u32;
    assert(v <= 0x10ffff);
}

proof fn lemma_listed(opts: Seq<char>, c: char, i: int, from: int)
    requires
        listed_at(opts, c, i),
        0 <= from <= i,
    ensures
        letter_index(opts, c, from) == Some(i),
    decreases i - from,
{
    if from < i {
        assert(opts[from] != c);
        lemma_listed(opts, c, i, from + 1);
    }
}

proof fn lemma_unlisted(opts: Seq<char>, c: char, from: int)
    requires
        c == ':' || forall|j: int| 0 <= j < opts.len() ==> #[trigger] opts[j] != c,
        0 <= from,
    ensures
        letter_index(opts, c, from) is None,
    decreases opts.len() - from,
{
    if from < opts.len() {
        lemma_unlisted(opts, c, from + 1);
    }
}

/// A letter with one colon takes an argument. Where letters follow it in its
/// word, at whatever place it stands, these are the argument, and the scan goes
/// on with the next word. Where it is the last, the next word is the argument,
/// and the scan goes on with the word after that. Where there is no next word,
/// the letter is refused: with a colon, if the option string starts with one,
/// and with a question mark otherwise.
pub proof fn law_required_argument(
    mem: Mem,
    argv: int,
    argc: int,
    opts: Seq<char>,
    ind: int,
    next: int,
    w: Seq<char>,
    k: int,
    i: int,
)
    requires
        stands_at(mem, argv, argc, ind, next, w, k),
        listed_at(opts, w[k], i),
        colons_after(opts, i) == 1,
    ensures
        ({
            let s = short_step(mem, argv, argc, opts, ind, next);
            if k + 1 < w.len() {
                &&& s.ret == w[k] as u32
                &&& s.arg == ArgView::Text(w.skip(k + 1))
                &&& s.ind == ind + 1
                &&& s.next == 0
                &&& s.optopt is None
            } else if no_word(mem, argv, argc, ind + 1) {
                &&& s.ret == if opts[0] == ':' {
                    0x3aint
                } else {
                    0x3fint
                }
                &&& s.optopt == Some(w[k] as u32 as int)
                &&& s.arg is Keep
                &&& s.ind == ind + 1
                &&& s.next == 0
            } else {
                &&& s.ret == w[k] as u32
                &&& s.arg is Text
                &&& word_is(mem, argv, argc, ind + 1, s.arg->0)
                &&& s.ind == ind + 2
                &&& s.next == 0
                &&& s.optopt is None
            }
        }),
{
    lemma_listed(opts, w[k], i, 0);
    lemma_code(w[k]);
    if w =~= seq!['-', '-'] {
        assert(w[1] == '-');
    }
}

/// A letter with two colons takes an argument only from its own word, and has
/// none where it is the last there.
pub proof fn law_optional_argument(
    mem: Mem,
    argv: int,
    argc: int,
    opts: Seq<char>,
    ind: int,
    next: int,
    w: Seq<char>,
    k: int,
    i: int,
)
    requires
        stands_at(mem, argv, argc, ind, next, w, k),
        listed_at(opts, w[k], i),
        colons_after(opts, i) == 2,
    ensures
        ({
            let s = short_step(mem, argv, argc, opts, ind, next);
            &&& s.ret == w[k] as u32
            &&& s.ind == ind + 1
            &&& s.next == 0
            &&& s.optopt is None
            &&& s.arg == if k + 1 < w.len() {
                ArgView::Text(w.skip(k + 1))
            } else {
                ArgView::Clear
            }
        }),
{
    lemma_listed(opts, w[k], i, 0);
    lemma_code(w[k]);
    if w =~= seq!['-', '-'] {
        assert(w[1] == '-');
    }
}

/// A letter without a colon takes no argument, and a letter that is not listed
/// is refused. Either way the scan goes on behind it: with the next letter of
/// the word, or with the next word where it is the last.
pub proof fn law_single_letter(
    mem: Mem,
    argv: int,
    argc: int,
    opts: Seq<char>,
    ind: int,
    next: int,
    w: Seq<char>,
    k: int,
    i: int,
)
    requires
        stands_at(mem, argv, argc, ind, next, w, k),
    ensures
        ({
            let s = short_step(mem, argv, argc, opts, ind, next);
            let behind = if k + 1 < w.len() {
                s.ind == ind && s.next == k + 1
            } else {
                s.ind == ind + 1 && s.next == 0
            };
            &&& listed_at(opts, w[k], i) && colons_after(opts, i) == 0 ==> {
                &&& s.ret == w[k] as u32
                &&& s.arg is Clear
                &&& s.optopt is None
                &&& behind
            }
            &&& (w[k] == ':' || forall|j: int| 0 <= j < opts.len() ==> #[trigger] opts[j] != w[k])
                ==> {
                &&& s.ret == 0x3f
                &&& s.arg is Keep
                &&& s.optopt == Some(w[k] as u32 as int)
                &&& behind
            }
        }),
{
    if listed_at(opts, w[k], i) {
        lemma_listed(opts, w[k], i, 0);
    }
    if w[k] == ':' || forall|j: int| 0 <= j < opts.len() ==> #[trigger] opts[j] != w[k] {
        lemma_unlisted(opts, w[k], 0);
    }
    lemma_code(w[k]);
    if w =~= seq!['-', '-'] {
        assert(w[1] == '-');
    }
}

/// The options end at a word that has no dash, at a lone dash, at two dashes,
/// which are passed over, and behind the last word. A scan that is through with
/// a word goes on with the next one as if it started there.
pub proof fn law_options_end_where(
    mem: Mem,
    argv: int,
    argc: int,
    opts: Seq<char>,
    ind: int,
    next: int,
    w: Seq<char>,
)
    ensures
        ({
            let s = short_step(mem, argv, argc, opts, ind, 0);
            &&& no_word(mem, argv, argc, ind) ==> s.ret == -1 && s.ind == ind
            &&& word_is(mem, argv, argc, ind, w) && (w.len() < 2 || w[0] != '-') ==> s.ret == -1
                && s.ind == ind
            &&& word_is(mem, argv, argc, ind, w) && w.len() == 2 && w[0] == '-' && w[1] == '-'
                ==> s.ret == -1 && s.ind == ind + 1
            &&& s.ret == -1 ==> s.arg is Keep && s.optopt is None && s.next == 0
        }),
        word_is(mem, argv, argc, ind, w) && 0 < next && w.len() <= next ==> short_step(
            mem,
            argv,
            argc,
            opts,
            ind,
            next,
        ) == short_step(mem, argv, argc, opts, ind + 1, 0),
{
    if word(mem, argv, argc, ind) is Some && word(mem, argv, argc, ind)->0.len() >= 2 {
        lemma_code(word(mem, argv, argc, ind)->0[1]);
    }
    if w.len() == 2 && w[0] == '-' && w[1] == '-' {
        assert(w =~= seq!['-', '-']);
    }
}

/// The four bytes at `p` lie in a chunk of the heap.
pub open spec fn in_heap(mem: Mem, p: int) -> bool {
    exists|c| #[trigger] mem.chunks@.contains(c) && c.base <= p && p + 4 <= c.base + c.size
}

/// The words at `p` and `q` have no byte in common.
pub open spec fn apart(p: int, q: int) -> bool {
    p + 4 <= q || q + 4 <= p
}

/// The four globals are there, each in the heap, and no two overlap.
pub open spec fn settled(env: Environment) -> bool {
    let s = env.libc_state.getopt;
    &&& env.mem.wf()
    &&& s.optarg_ptr is Some && in_heap(env.mem, s.optarg_ptr->0 as int)
    &&& s.optind_ptr is Some && in_heap(env.mem, s.optind_ptr->0 as int)
    &&& s.opterr_ptr is Some && in_heap(env.mem, s.opterr_ptr->0 as int)
    &&& s.optopt_ptr is Some && in_heap(env.mem, s.optopt_ptr->0 as int)
    &&& apart(s.optarg_ptr->0 as int, s.optind_ptr->0 as int)
    &&& apart(s.optarg_ptr->0 as int, s.opterr_ptr->0 as int)
    &&& apart(s.optarg_ptr->0 as int, s.optopt_ptr->0 as int)
    &&& apart(s.optind_ptr->0 as int, s.opterr_ptr->0 as int)
    &&& apart(s.optind_ptr->0 as int, s.optopt_ptr->0 as int)
    &&& apart(s.opterr_ptr->0 as int, s.optopt_ptr->0 as int)
}

/// The word at `p`, as a signed number.
pub open spec fn number_at(env: Environment, p: Option<MutPtr>) -> int {
    signed32(le_u32(env.mem@, p->0 as int))
}

/// The C string whose address is in the word at `p`.
pub open spec fn text_behind(env: Environment, p: Option<MutPtr>) -> Seq<u8> {
    env.mem.cstr(le_u32(env.mem@, p->0 as int))
}

/// `data` lies in memory from `p` on.
pub open spec fn holds(mem: Mem, p: int, data: Seq<u8>) -> bool {
    &&& 0 <= p && p + data.len() <= mem@.len()
    &&& forall|i: int| p <= i < p + data.len() ==> #[trigger] mem@[i] == data[i - p]
}

/// The word at `q` does not touch the `n` bytes at `p`.
pub open spec fn beside(q: int, p: int, n: int) -> bool {
    q + 4 <= p || p + n <= q
}

pub proof fn lemma_in_heap(mem: Mem, p: int)
    requires
        mem.wf(),
        in_heap(mem, p),
    ensures
        0 < p,
        p + 4 <= mem@.len(),
{
    let c = choose|c| #[trigger]
        mem.chunks@.contains(c) && c.base <= p && p + 4 <= c.base + c.size;
    let i = choose|i: int| 0 <= i < mem.chunks@.len() && mem.chunks@[i] == c;
    assert(mem.chunks@[i] == c);
}

/// A global was given `v`, and nothing else changed.
proof fn lemma_set(before: Environment, after: Environment, cell: Cell, v: int, p: MutPtr)
    requires
        cell_set(before, after, cell, v),
        cell_located(before, before, cell, p),
        forall|mid: Environment, q: MutPtr|
            cell_located(before, mid, cell, q) ==> mid == before && q == p,
        p + 4 <= before.mem@.len(),
        -0x8000_0000 <= v < 0x8000_0000,
    ensures
        after == before.with_mem(after.mem),
        after.mem.chunks == before.mem.chunks,
        after.mem@.len() == before.mem@.len(),
        signed32(le_u32(after.mem@, p as int)) == v,
        le_u32(after.mem@, p as int) == unsigned32(v),
        forall|i: int|
            0 <= i < before.mem@.len() && (i < p || p + 4 <= i) ==> #[trigger] after.mem@[i]
                == before.mem@[i],
{
    let (mid, q) = choose|mid: Environment, q: MutPtr| #[trigger]
        cell_located(before, mid, cell, q) && after == mid.with_mem(after.mem)
            && after.mem.stored(mid.mem, q as int, le_bytes(unsigned32(v), 4));
    lemma_le_bytes_4(unsigned32(v));
}

/// A new chunk does not touch what is in the heap.
pub proof fn lemma_placed(before: Mem, after: Mem, ptr: u32, data: Seq<u8>, q: int)
    requires
        before.wf(),
        after.placed(before, ptr, data),
        data.len() > 0,
        in_heap(before, q),
    ensures
        in_heap(after, q),
        beside(q, ptr as int, data.len() as int),
        le_u32(after@, q) == le_u32(before@, q),
        holds(after, ptr as int, data),
        after@.len() == before@.len(),
{
    lemma_chunk_added(before, after, ptr, data.len() as int);
    lemma_in_heap(before, q);
    let c = choose|c| #[trigger]
        before.chunks@.contains(c) && c.base <= q && q + 4 <= c.base + c.size;
    assert(after.chunks@.contains(c));
    let i = choose|i: int| 0 <= i < before.chunks@.len() && before.chunks@[i] == c;
    assert(before.chunks@[i] == c);
}

/// `optarg` holds what `arg` says: a text lies at the address in it.
spec fn arg_holds(before: Environment, after: Environment, arg: ArgView, ptr: int) -> bool {
    let p = before.libc_state.getopt.optarg_ptr->0 as int;
    match arg {
        ArgView::Keep => le_u32(after.mem@, p) == le_u32(before.mem@, p),
        ArgView::Clear => le_u32(after.mem@, p) == 0,
        ArgView::Text(t) => le_u32(after.mem@, p) == ptr && holds(
            after.mem,
            ptr,
            encode_utf8(t).push(0),
        ),
    }
}

/// The bytes at `ptr` that `arg` needs are not touched by the word at `q`.
spec fn arg_beside(arg: ArgView, ptr: int, q: int) -> bool {
    match arg {
        ArgView::Text(t) => beside(q, ptr, encode_utf8(t).len() as int + 1),
        _ => true,
    }
}

/// Dealing with `optarg` keeps each word `q` in the heap that is another.
proof fn lemma_arg(before: Environment, after: Environment, arg: ArgView) -> (ptr: int)
    requires
        settled(before),
        arg_applied(before, after, arg),
    ensures
        after == before.with_mem(after.mem),
        after.mem@.len() == before.mem@.len(),
        arg_holds(before, after, arg, ptr),
        forall|q: int|
            #![trigger in_heap(before.mem, q)]
            in_heap(before.mem, q) && apart(before.libc_state.getopt.optarg_ptr->0 as int, q) ==> {
                &&& le_u32(after.mem@, q) == le_u32(before.mem@, q)
                &&& arg_beside(arg, ptr, q)
            },
{
    let p = before.libc_state.getopt.optarg_ptr->0;
    lemma_in_heap(before.mem, p as int);
    match arg {
        ArgView::Keep => 0,
        ArgView::Clear => {
            lemma_set(before, after, Cell::Optarg, 0, p);
            assert forall|q: int| #[trigger] in_heap(before.mem, q) && apart(p as int, q) implies
                le_u32(after.mem@, q) == le_u32(before.mem@, q) by {
                lemma_in_heap(before.mem, q);
            }
            0
        },
        ArgView::Text(t) => {
            let (mid, ptr) = choose|mid: Environment, ptr: u32| #[trigger]
                text_placed(before, mid, ptr, t) && cell_set(
                    mid,
                    after,
                    Cell::Optarg,
                    signed32(ptr as int),
                );
            let data = encode_utf8(t).push(0);
            lemma_placed(before.mem, mid.mem, ptr, data, p as int);
            lemma_set(mid, after, Cell::Optarg, signed32(ptr as int), p);
            assert forall|q: int| #[trigger] in_heap(before.mem, q) && apart(p as int, q) implies
                le_u32(after.mem@, q) == le_u32(before.mem@, q) && arg_beside(
                arg,
                ptr as int,
                q,
            ) by {
                lemma_in_heap(before.mem, q);
                lemma_placed(before.mem, mid.mem, ptr, data, q);
            }
            ptr as int
        },
    }
}

/// A word that was written elsewhere leaves `optarg` and its text alone.
proof fn lemma_arg_kept(
    before: Environment,
    mid: Environment,
    after: Environment,
    arg: ArgView,
    ptr: int,
    q: int,
)
    requires
        arg_holds(before, mid, arg, ptr),
        arg_beside(arg, ptr, q),
        apart(before.libc_state.getopt.optarg_ptr->0 as int, q),
        before.libc_state.getopt.optarg_ptr->0 + 4 <= mid.mem@.len(),
        after.mem@.len() == mid.mem@.len(),
        forall|i: int|
            0 <= i < mid.mem@.len() && (i < q || q + 4 <= i) ==> #[trigger] after.mem@[i]
                == mid.mem@[i],
    ensures
        arg_holds(before, after, arg, ptr),
{
}

/// What `optarg` holds once `arg` was dealt with: nothing is changed, it is
/// null, or it is the address of the text.
pub open spec fn optarg_is(before: Environment, after: Environment, arg: ArgView) -> bool {
    let p = before.libc_state.getopt.optarg_ptr;
    match arg {
        ArgView::Keep => le_u32(after.mem@, p->0 as int) == le_u32(before.mem@, p->0 as int),
        ArgView::Clear => le_u32(after.mem@, p->0 as int) == 0,
        ArgView::Text(t) => (forall|i: int|
            0 <= i < encode_utf8(t).len() ==> encode_utf8(t)[i] != 0) ==> text_behind(after, p)
            == encode_utf8(t),
    }
}

proof fn lemma_optarg(before: Environment, after: Environment, arg: ArgView, ptr: int)
    requires
        arg_holds(before, after, arg, ptr),
    ensures
        optarg_is(before, after, arg),
{
    if let ArgView::Text(t) = arg {
        let text = encode_utf8(t);
        if forall|i: int| 0 <= i < text.len() ==> text[i] != 0 {
            let data = text.push(0);
            assert(after.mem@[ptr + text.len()] == data[text.len() as int]);
            assert forall|i: int| ptr <= i < ptr + text.len() implies after.mem@[i] != 0 by {
                assert(after.mem@[i] == data[i - ptr]);
            }
            lemma_cstr_len_is(after.mem@, ptr, text.len());
            assert(after.mem.cstr(ptr) =~= text);
        }
    }
}

/// What the guest sees of a scan: the result is the scan's, `optind` is where it
/// goes on, `optarg` is what it found, `optopt` the letter that was refused, and
/// what is not said to change does not.
pub proof fn law_getopt_globals(
    before: Environment,
    after: Environment,
    argc: int,
    argv: int,
    opts: Seq<char>,
    r: int,
)
    requires
        settled(before),
        getopt_done(before, after, argc, argv, opts, r),
        argc < 0x7fff_ffff,
    ensures
        ({
            let s = before.libc_state.getopt;
            let step = short_step(
                before.mem,
                argv,
                argc,
                opts,
                number_at(before, s.optind_ptr),
                s.next_char_idx as int,
            );
            &&& r == step.ret
            &&& after.libc_state.getopt.optarg_ptr == s.optarg_ptr
            &&& after.libc_state.getopt.optind_ptr == s.optind_ptr
            &&& after.libc_state.getopt.opterr_ptr == s.opterr_ptr
            &&& after.libc_state.getopt.optopt_ptr == s.optopt_ptr
            &&& after.libc_state.getopt.next_char_idx == step.next as usize
            &&& number_at(after, s.optind_ptr) == step.ind
            &&& number_at(after, s.opterr_ptr) == number_at(before, s.opterr_ptr)
            &&& number_at(after, s.optopt_ptr) == (if step.optopt is Some {
                step.optopt->0
            } else {
                number_at(before, s.optopt_ptr)
            })
            &&& optarg_is(before, after, step.arg)
        }),
{
    let s = before.libc_state.getopt;
    let ind = number_at(before, s.optind_ptr);
    let next = s.next_char_idx as int;
    let step = short_step(before.mem, argv, argc, opts, ind, next);
    lemma_in_heap(before.mem, s.optarg_ptr->0 as int);
    lemma_in_heap(before.mem, s.optind_ptr->0 as int);
    lemma_in_heap(before.mem, s.opterr_ptr->0 as int);
    lemma_in_heap(before.mem, s.optopt_ptr->0 as int);
    lemma_step_range(before.mem, argv, argc, opts, ind, next);
    assert(step_applied(before, after, step));
    let start = before.with_getopt(
        State { next_char_idx: step.next as usize, ..s },
    );
    let (with_arg, refused) = choose|with_arg: Environment, refused: Environment|
        {
            &&& #[trigger] arg_applied(start, with_arg, step.arg)
            &&& #[trigger] refusal_applied(with_arg, refused, step.optopt)
            &&& cell_set(refused, after, Cell::Optind, step.ind)
        };
    assert(settled(start));
    let ptr = lemma_arg(start, with_arg, step.arg);
    if let Some(c) = step.optopt {
        lemma_set(with_arg, refused, Cell::Optopt, c, s.optopt_ptr->0);
        lemma_arg_kept(start, with_arg, refused, step.arg, ptr, s.optopt_ptr->0 as int);
    }
    lemma_set(refused, after, Cell::Optind, step.ind, s.optind_ptr->0);
    lemma_arg_kept(start, refused, after, step.arg, ptr, s.optind_ptr->0 as int);
    lemma_optarg(start, after, step.arg, ptr);
}

proof fn lemma_option_range(mem: Mem, argv: int, argc: int, opts: Seq<char>, ind: int, w: Seq<char>, k: int)
    requires
        0 <= ind < argc < 0x7fff_ffff,
        0 <= k < w.len(),
    ensures
        step_in_range(option_at(mem, argv, argc, opts, ind, w, k)),
{
    lemma_code(w[k]);
}

spec fn step_in_range(s: StepView) -> bool {
    &&& -0x8000_0000 <= s.ind < 0x8000_0000
    &&& s.optopt is Some ==> 0 <= s.optopt->0 < 0x8000_0000
}

proof fn lemma_step_range(mem: Mem, argv: int, argc: int, opts: Seq<char>, ind: int, next: int)
    requires
        argc < 0x7fff_ffff,
        -0x8000_0000 <= ind < 0x8000_0000,
        0 <= next,
    ensures
        step_in_range(short_step(mem, argv, argc, opts, ind, next)),
{
    if let Some(w) = word(mem, argv, argc, ind) {
        if next == 0 && w.len() >= 2 {
            lemma_option_range(mem, argv, argc, opts, ind, w, 1);
        } else if 0 < next < w.len() {
            lemma_option_range(mem, argv, argc, opts, ind, w, next);
        }
    }
    if let Some(w) = word(mem, argv, argc, ind + 1) {
        if w.len() >= 2 {
            lemma_option_range(mem, argv, argc, opts, ind + 1, w, 1);
        }
    }
}

/// The name of the option number `i` in the table at `base` is `w`.
pub open spec fn name_is(mem: Mem, base: int, i: int, w: Seq<char>) -> bool {
    let p = le_u32(mem@, base + 16 * i);
    &&& valid_utf8(mem.cstr(p))
    &&& decode_utf8(mem.cstr(p)) == w
}

/// The names of the first `n` options in the table at `base`.
pub open spec fn names_are(mem: Mem, base: int, names: Seq<Seq<char>>) -> bool {
    forall|i: int| 0 <= i < names.len() ==> name_is(mem, base, i, #[trigger] names[i])
}

/// `full` starts with the letters of `part`.
pub open spec fn begins(full: Seq<char>, part: Seq<char>) -> bool {
    &&& part.len() <= full.len()
    &&& forall|k: int| 0 <= k < part.len() ==> #[trigger] full[k] == part[k]
}

proof fn lemma_name(mem: Mem, base: int, names: Seq<Seq<char>>, i: int, part: Seq<char>)
    requires
        names_are(mem, base, names),
        0 <= i < names.len(),
    ensures
        long_name(mem, base, i) == names[i],
        starts_with(long_name(mem, base, i), part) == begins(names[i], part),
{
    assert(name_is(mem, base, i, names[i]));
    assert(0 <= le_u32(mem@, base + 16 * i) < 0x1_0000_0000);
    if begins(names[i], part) {
        assert(names[i].take(part.len() as int) =~= part);
    } else if starts_with(names[i], part) {
        assert forall|k: int| 0 <= k < part.len() implies #[trigger] names[i][k] == part[k] by {
            assert(names[i].take(part.len() as int)[k] == part[k]);
        }
    }
}

proof fn lemma_exact(
    mem: Mem,
    base: int,
    names: Seq<Seq<char>>,
    part: Seq<char>,
    from: int,
    i: int,
)
    requires
        names_are(mem, base, names),
        0 <= from <= i <= names.len(),
        i < names.len() ==> names[i] == part,
        forall|j: int| 0 <= j < i ==> #[trigger] names[j] != part,
    ensures
        exact_index(mem, base, part, names.len() as int, from) == if i < names.len() {
            Some(i)
        } else {
            None
        },
    decreases i - from,
{
    if from < names.len() {
        lemma_name(mem, base, names, from, part);
    }
    if from < i {
        lemma_exact(mem, base, names, part, from + 1, i);
    }
}

proof fn lemma_counts(mem: Mem, base: int, names: Seq<Seq<char>>, part: Seq<char>, n: int)
    requires
        names_are(mem, base, names),
        0 <= n <= names.len(),
    ensures
        prefix_count(mem, base, part, n) >= 0,
        (forall|j: int| 0 <= j < n ==> !begins(#[trigger] names[j], part)) ==> prefix_count(
            mem,
            base,
            part,
            n,
        ) == 0,
        forall|i: int|
            0 <= i < n && begins(#[trigger] names[i], part) && (forall|j: int|
                0 <= j < n && j != i ==> !begins(#[trigger] names[j], part)) ==> prefix_count(
                mem,
                base,
                part,
                n,
            ) == 1 && last_prefix(mem, base, part, n) == i,
        forall|i: int|
            0 <= i < n && begins(#[trigger] names[i], part) ==> prefix_count(mem, base, part, n)
                >= 1,
        forall|i: int, j: int|
            0 <= i < j < n && begins(#[trigger] names[i], part) && begins(
                #[trigger] names[j],
                part,
            ) ==> prefix_count(mem, base, part, n) >= 2,
    decreases n,
{
    if n > 0 {
        lemma_counts(mem, base, names, part, n - 1);
        lemma_name(mem, base, names, n - 1, part);
    }
}

/// Which long option a name stands for: the first that is called so; where none
/// is, the only one whose name begins so; where several begin so, the name is
/// ambiguous, and where none does there is no such option.
pub proof fn law_long_names(mem: Mem, base: int, names: Seq<Seq<char>>, part: Seq<char>)
    requires
        names_are(mem, base, names),
        names.len() < 0x1_0000_0000,
    ensures
        ({
            let n = names.len() as int;
            let found = match_long(mem, base, part, n);
            &&& forall|i: int|
                0 <= i < n && (#[trigger] names[i]) == part && (forall|j: int|
                    0 <= j < i ==> #[trigger] names[j] != part) ==> found == LongMatch::Found(
                    i as u32,
                )
            &&& (forall|j: int| 0 <= j < n ==> #[trigger] names[j] != part) ==> {
                &&& forall|i: int|
                    0 <= i < n && begins(#[trigger] names[i], part) && (forall|j: int|
                        0 <= j < n && j != i ==> !begins(#[trigger] names[j], part)) ==> found
                        == LongMatch::Found(i as u32)
                &&& forall|i: int, j: int|
                    0 <= i < j < n && begins(#[trigger] names[i], part) && begins(
                        #[trigger] names[j],
                        part,
                    ) ==> found == LongMatch::Ambiguous
                &&& (forall|j: int| 0 <= j < n ==> !begins(#[trigger] names[j], part)) ==> found
                    == LongMatch::NotFound
            }
        }),
{
    let n = names.len() as int;
    assert forall|i: int|
        0 <= i < n && (#[trigger] names[i]) == part && (forall|j: int|
            0 <= j < i ==> #[trigger] names[j] != part) implies match_long(mem, base, part, n)
        == LongMatch::Found(i as u32) by {
        lemma_exact(mem, base, names, part, 0, i);
    }
    if forall|j: int| 0 <= j < n ==> #[trigger] names[j] != part {
        lemma_exact(mem, base, names, part, 0, n);
    }
    lemma_counts(mem, base, names, part, n);
}

proof fn lemma_equals(s: Seq<char>, from: int, i: int)
    requires
        0 <= from <= i <= s.len(),
        i < s.len() ==> s[i] == '=',
        forall|j: int| from <= j < i ==> #[trigger] s[j] != '=',
    ensures
        equals_index(s, from) == i,
    decreases i - from,
{
    if from < i {
        lemma_equals(s, from + 1, i);
    }
}

/// What a long option says: between the dashes and the first equals sign stands
/// its name, and behind the sign its argument, which may be empty or hold equals
/// signs of its own; without the sign it has none. Two dashes always introduce
/// one, a single dash only where that is asked for.
pub proof fn law_name_and_value(dashes: int, name: Seq<char>, value: Seq<char>, long_only: bool)
    requires
        dashes == 1 || dashes == 2,
        name.len() > 0,
        dashes == 1 ==> name[0] != '-',
        forall|j: int| 0 <= j < name.len() ==> #[trigger] name[j] != '=',
    ensures
        ({
            let d = Seq::new(dashes as nat, |i: int| '-');
            let plain = d + name;
            let full = plain + seq!['='] + value;
            &&& option_name(plain) == name
            &&& option_value(plain) is None
            &&& option_name(full) == name
            &&& option_value(full) == Some(value)
            &&& is_long_word(plain, long_only) <==> dashes == 2 || long_only
            &&& is_long_word(full, long_only) <==> dashes == 2 || long_only
        }),
{
    let d = Seq::new(dashes as nat, |i: int| '-');
    let plain = d + name;
    let full = plain + seq!['='] + value;
    let tail = name + seq!['='] + value;
    if dashes == 1 {
        assert(plain[1] == name[0] && full[1] == name[0]);
    }
    assert(plain.skip(dashes) =~= name);
    assert(full.skip(dashes) =~= tail);
    lemma_equals(name, 0, name.len() as int);
    assert forall|j: int| 0 <= j < name.len() implies #[trigger] tail[j] != '=' by {
        assert(tail[j] == name[j]);
    }
    lemma_equals(tail, 0, name.len() as int);
    assert(name.take(name.len() as int) =~= name);
    assert(tail.take(name.len() as int) =~= name);
    assert(tail.skip(name.len() as int + 1) =~= value);
}

/// An equals sign right behind the dashes leaves the name empty, and what stands
/// behind the sign is the argument.
pub proof fn law_empty_name(dashes: int, value: Seq<char>)
    requires
        dashes == 1 || dashes == 2,
    ensures
        ({
            let w = Seq::new(dashes as nat, |i: int| '-') + seq!['='] + value;
            option_name(w).len() == 0 && option_value(w) == Some(value)
        }),
{
    let w = Seq::new(dashes as nat, |i: int| '-') + seq!['='] + value;
    let tail = seq!['='] + value;
    assert(w[dashes] == '=');
    assert(w.skip(dashes) =~= tail);
    lemma_equals(tail, 0, 0);
    assert(tail.skip(1) =~= value);
}

/// A word with its dashes and no more is no long option, nor is one without a
/// dash.
pub proof fn law_no_long_word(w: Seq<char>, long_only: bool)
    ensures
        w.len() < 2 || w[0] != '-' ==> !is_long_word(w, long_only),
        w.len() == 2 && w[0] == '-' && w[1] == '-' ==> !is_long_word(w, long_only),
{
}

/// The words of the option number `i` in the table at `base`.
pub open spec fn takes_argument(mem: Mem, base: int, i: int) -> int {
    le_u32(mem@, base + 16 * i + 4)
}

pub open spec fn flag_of(mem: Mem, base: int, i: int) -> int {
    le_u32(mem@, base + 16 * i + 8)
}

pub open spec fn value_of(mem: Mem, base: int, i: int) -> int {
    signed32(le_u32(mem@, base + 16 * i + 12))
}

/// A flag, where there is one, is a word in the heap beside `optarg` and
/// `optind`.
pub open spec fn flag_apart(env: Environment, flag: int) -> bool {
    flag != 0 ==> {
        &&& in_heap(env.mem, flag)
        &&& apart(env.libc_state.getopt.optarg_ptr->0 as int, flag)
        &&& apart(env.libc_state.getopt.optind_ptr->0 as int, flag)
    }
}

/// The value `v` of an option was given to the guest: it is the result, or it
/// was stored where the flag points.
pub open spec fn answered(after: Environment, flag: int, v: int, r: int) -> bool {
    if flag == 0 {
        r == v
    } else {
        r == 0 && signed32(le_u32(after.mem@, flag)) == v
    }
}

proof fn lemma_found(
    before: Environment,
    after: Environment,
    argc: int,
    argv: int,
    longopts: int,
    i: int,
    value: Option<Seq<char>>,
    ind: int,
    r: int,
)
    requires
        long_found(before, after, argc, argv, longopts, 0, i, value, ind, r),
    ensures
        ({
            let opt = long_option(before.mem, longopts, i);
            &&& option_taken(before, after, argc, argv, opt, value, ind, r)
            &&& opt.flag == flag_of(before.mem, longopts, i)
            &&& opt.val == value_of(before.mem, longopts, i)
            &&& opt.has_arg == 0 <==> takes_argument(before.mem, longopts, i) == 0
            &&& opt.has_arg == 1 <==> takes_argument(before.mem, longopts, i) == 1
            &&& opt.has_arg == 2 <==> takes_argument(before.mem, longopts, i) == 2
        }),
{
    assert(0 <= takes_argument(before.mem, longopts, i) < 0x1_0000_0000);
    assert(0 <= flag_of(before.mem, longopts, i) < 0x1_0000_0000);
    assert(0 <= le_u32(before.mem@, longopts + 16 * i + 12) < 0x1_0000_0000);
}

#[verifier::rlimit(80)]
#[verifier::spinoff_prover]
proof fn lemma_given(before: Environment, after: Environment, opt: GuestOption, r: int)
    requires
        value_given(before, after, opt, r),
        opt.flag != 0 ==> opt.flag + 4 <= before.mem@.len(),
    ensures
        answered(after, opt.flag as int, opt.val as int, r),
        after == before.with_mem(after.mem),
        after.mem@.len() == before.mem@.len(),
        opt.flag == 0 ==> after == before,
        forall|i: int|
            0 <= i < before.mem@.len() && (i < opt.flag || opt.flag + 4 <= i)
                ==> #[trigger] after.mem@[i] == before.mem@[i],
{
    lemma_le_bytes_4(unsigned32(opt.val as int));
}

/// A long option is refused where it has an argument and takes none, and where
/// it needs one and there is neither one in its word nor a word behind it. The
/// result is a question mark, the scan goes on with the next word, and `optarg`
/// is as it was.
pub proof fn law_long_refused(
    before: Environment,
    after: Environment,
    argc: int,
    argv: int,
    longopts: int,
    i: int,
    value: Option<Seq<char>>,
    ind: int,
    r: int,
)
    requires
        settled(before),
        long_found(before, after, argc, argv, longopts, 0, i, value, ind, r),
        0 <= ind < 0x7fff_fffe,
        (takes_argument(before.mem, longopts, i) == 0 && value is Some) || (takes_argument(
            before.mem,
            longopts,
            i,
        ) == 1 && value is None && no_word(before.mem, argv, argc, ind + 1)),
    ensures
        r == 0x3f,
        number_at(after, before.libc_state.getopt.optind_ptr) == ind + 1,
        optarg_is(before, after, ArgView::Keep),
{
    let s = before.libc_state.getopt;
    lemma_in_heap(before.mem, s.optarg_ptr->0 as int);
    lemma_in_heap(before.mem, s.optind_ptr->0 as int);
    lemma_found(before, after, argc, argv, longopts, i, value, ind, r);
    lemma_set(before, after, Cell::Optind, ind + 1, s.optind_ptr->0);
}

/// A long option that needs an argument and has none in its word takes the next
/// word: `optarg` is that word, where the option has no flag, its value is given
/// to the guest, and the scan goes on two words further.
pub proof fn law_long_next_word(
    before: Environment,
    after: Environment,
    argc: int,
    argv: int,
    longopts: int,
    i: int,
    w: Seq<char>,
    ind: int,
    r: int,
)
    requires
        settled(before),
        long_found(before, after, argc, argv, longopts, 0, i, None, ind, r),
        0 <= ind < 0x7fff_fffe,
        takes_argument(before.mem, longopts, i) == 1,
        word_is(before.mem, argv, argc, ind + 1, w),
        flag_apart(before, flag_of(before.mem, longopts, i)),
    ensures
        number_at(after, before.libc_state.getopt.optind_ptr) == ind + 2,
        answered(
            after,
            flag_of(before.mem, longopts, i),
            value_of(before.mem, longopts, i),
            r,
        ),
        optarg_is(
            before,
            after,
            if flag_of(before.mem, longopts, i) == 0 {
                ArgView::Text(w)
            } else {
                ArgView::Keep
            },
        ),
{
    let s = before.libc_state.getopt;
    let p = s.optind_ptr->0;
    let opt = long_option(before.mem, longopts, i);
    lemma_in_heap(before.mem, s.optarg_ptr->0 as int);
    lemma_in_heap(before.mem, p as int);
    lemma_found(before, after, argc, argv, longopts, i, None, ind, r);
    assert(word(before.mem, argv, argc, ind + 1) == Some(w));
    let moved = choose|moved: Environment| #[trigger]
        cell_set(before, moved, Cell::Optind, ind + 2) && (if opt.flag == 0 {
            r == opt.val && arg_applied(moved, after, ArgView::Text(w))
        } else {
            value_given(moved, after, opt, r)
        });
    lemma_set(before, moved, Cell::Optind, ind + 2, p);
    if opt.flag == 0 {
        lemma_settled(before, moved);
        let ptr = lemma_arg(moved, after, ArgView::Text(w));
        lemma_optarg(moved, after, ArgView::Text(w), ptr);
        assert(in_heap(moved.mem, p as int));
    } else {
        lemma_in_heap(before.mem, opt.flag as int);
        lemma_given(moved, after, opt, r);
    }
}

proof fn lemma_settled(before: Environment, after: Environment)
    requires
        settled(before),
        after == before.with_mem(after.mem),
        after.mem.chunks == before.mem.chunks,
        after.mem@.len() == before.mem@.len(),
    ensures
        settled(after),
{
    assert forall|q: int| in_heap(before.mem, q) implies #[trigger] in_heap(after.mem, q) by {
        let c = choose|c| #[trigger]
            before.mem.chunks@.contains(c) && c.base <= q && q + 4 <= c.base + c.size;
        assert(after.mem.chunks@.contains(c));
    }
}

/// A long option that takes what its own word holds: the text behind the equals
/// sign, where there is one and the option takes it, and otherwise nothing, which
/// leaves `optarg` null. Its value is given to the guest, and the scan goes on
/// with the next word.
pub proof fn law_long_own_word(
    before: Environment,
    after: Environment,
    argc: int,
    argv: int,
    longopts: int,
    i: int,
    value: Option<Seq<char>>,
    ind: int,
    r: int,
)
    requires
        settled(before),
        long_found(before, after, argc, argv, longopts, 0, i, value, ind, r),
        0 <= ind < 0x7fff_fffe,
        takes_argument(before.mem, longopts, i) == 0 ==> value is None,
        takes_argument(before.mem, longopts, i) == 1 ==> value is Some,
        flag_apart(before, flag_of(before.mem, longopts, i)),
    ensures
        number_at(after, before.libc_state.getopt.optind_ptr) == ind + 1,
        answered(
            after,
            flag_of(before.mem, longopts, i),
            value_of(before.mem, longopts, i),
            r,
        ),
        1 <= takes_argument(before.mem, longopts, i) <= 2 && value is Some ==> optarg_is(
            before,
            after,
            ArgView::Text(value->0),
        ),
        value is None ==> optarg_is(before, after, ArgView::Clear),
{
    let s = before.libc_state.getopt;
    let p = s.optind_ptr->0;
    let opt = long_option(before.mem, longopts, i);
    lemma_in_heap(before.mem, s.optarg_ptr->0 as int);
    lemma_in_heap(before.mem, p as int);
    lemma_found(before, after, argc, argv, longopts, i, value, ind, r);
    let arg = own_arg(opt, value);
    let (with_arg, moved) = choose|with_arg: Environment, moved: Environment|
        {
            &&& #[trigger] arg_applied(before, with_arg, arg)
            &&& #[trigger] cell_set(with_arg, moved, Cell::Optind, ind + 1)
            &&& value_given(moved, after, opt, r)
        };
    let ptr = lemma_arg(before, with_arg, arg);
    lemma_set(with_arg, moved, Cell::Optind, ind + 1, p);
    lemma_arg_kept(before, with_arg, moved, arg, ptr, p as int);
    if opt.flag != 0 {
        lemma_in_heap(before.mem, opt.flag as int);
        lemma_given(moved, after, opt, r);
        lemma_arg_kept(before, moved, after, arg, ptr, opt.flag as int);
    }
    lemma_optarg(before, after, arg, ptr);
}

/// The table at `base` has these names, and none behind them.
pub open spec fn table_is(mem: Mem, base: int, names: Seq<Seq<char>>) -> bool {
    &&& names_are(mem, base, names)
    &&& le_u32(mem@, base + 16 * names.len()) == 0
    &&& forall|i: int|
        0 <= i < names.len() ==> le_u32(mem@, base + 16 * i) != 0 && (#[trigger] names[i]).len()
            >= 0
}

proof fn lemma_table(mem: Mem, base: int, names: Seq<Seq<char>>, n: int)
    requires
        table_is(mem, base, names),
        options_end(mem, base, n),
    ensures
        n == names.len(),
{
    if n < names.len() {
        assert(names[n].len() >= 0);
        assert(long_option(mem, base, n).name == 0);
        assert(0 <= le_u32(mem@, base + 16 * n) < 0x1_0000_0000);
    } else if n > names.len() {
        let k = names.len() as int;
        assert(long_option(mem, base, k).name != 0);
    }
}

/// What becomes of the word at which the scan for long options stands. Without a
/// word the result is -1. A word that is no long option is left to the scan for
/// letters. A name that stands for one option is that option; one that stands for
/// several, or that two dashes introduce and that stands for none, is refused with
/// a question mark, and the scan goes on with the next word.
pub proof fn law_getopt_long(
    before: Environment,
    after: Environment,
    argc: int,
    argv: int,
    optstring: int,
    longopts: int,
    longindex: int,
    long_only: bool,
    r: int,
    w: Seq<char>,
    names: Seq<Seq<char>>,
)
    requires
        settled(before),
        argc < 0x7fff_ffff,
        getopt_long_done(
            before,
            after,
            argc,
            argv,
            optstring,
            longopts,
            longindex,
            long_only,
            r,
        ),
    ensures
        ({
            let ind = number_at(before, before.libc_state.getopt.optind_ptr);
            let next = number_at(after, before.libc_state.getopt.optind_ptr);
            let there = word_is(before.mem, argv, argc, ind, w);
            let long = there && is_long_word(w, long_only) && option_name(w).len() > 0 && table_is(
                before.mem,
                longopts,
                names,
            ) && names.len() < 0x1_0000_0000;
            let found = match_long(before.mem, longopts, option_name(w), names.len() as int);
            &&& no_word(before.mem, argv, argc, ind) ==> r == -1 && after == before
            &&& there && !is_long_word(w, long_only) ==> getopt_done(
                before,
                after,
                argc,
                argv,
                opts_at(before.mem, optstring),
                r,
            )
            &&& long && found is Found ==> long_found(
                before,
                after,
                argc,
                argv,
                longopts,
                longindex,
                found->Found_0 as int,
                option_value(w),
                ind,
                r,
            )
            &&& long && found is Ambiguous ==> r == 0x3f && next == ind + 1
            &&& long && found is NotFound && w.len() > 1 && w[0] == '-' && w[1] == '-' ==> r == 0x3f
                && next == ind + 1
            &&& long && found is NotFound && !(w.len() > 1 && w[0] == '-' && w[1] == '-')
                ==> getopt_done(before, after, argc, argv, opts_at(before.mem, optstring), r)
        }),
{
    let s = before.libc_state.getopt;
    let p = s.optind_ptr->0;
    let ind = number_at(before, s.optind_ptr);
    lemma_in_heap(before.mem, p as int);
    lemma_in_heap(before.mem, s.opterr_ptr->0 as int);
    if word_is(before.mem, argv, argc, ind, w) && is_long_word(w, long_only) && option_name(
        w,
    ).len() > 0 && table_is(before.mem, longopts, names) {
        let n = choose|n: int| #[trigger]
            options_end(before.mem, longopts, n) && long_match_done(
                before,
                after,
                argc,
                argv,
                optstring,
                longopts,
                longindex,
                w,
                ind,
                match_long(before.mem, longopts, option_name(w), n),
                r,
            );
        lemma_table(before.mem, longopts, names, n);
        let found = match_long(before.mem, longopts, option_name(w), n);
        if found is Ambiguous || (found is NotFound && w.len() > 1 && w[0] == '-' && w[1] == '-') {
            lemma_set(before, after, Cell::Optind, ind + 1, p);
        }
    }
}

/// The option string is the text at its address, and empty where that is no
/// text.
pub proof fn law_option_string(mem: Mem, ptr: int)
    ensures
        valid_utf8(mem.cstr(ptr)) ==> opts_at(mem, ptr) == decode_utf8(mem.cstr(ptr)),
        !valid_utf8(mem.cstr(ptr)) ==> opts_at(mem, ptr).len() == 0,
{
}

} // verus!

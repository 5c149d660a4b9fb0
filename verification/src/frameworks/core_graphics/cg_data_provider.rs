//! `CGDataProvider.h`
use std::collections::HashMap;
use vstd::prelude::*;
use vstd::utf8::{decode_utf8, valid_utf8};

use crate::environment::Environment;
use crate::heap::lemma_second_room;
use crate::mem::{
    heap_size, le_bytes, le_u32, ConstPtr, ConstVoidPtr, GuestUSize, Mem, MutVoidPtr,
};
use crate::objc::{
    calls1, calls3, id, nil, releases, retains, Action, GuestFunction, ObjC,
};
use crate::paths::{is_absolute, parts_of, scan_parts};
use crate::text::chars_of;

verus! {

broadcast use vstd::std_specs::hash::group_hash_axioms;

pub type CGDataProviderRef = id;

/// A CGDataProvider is supposed to be a collection of callbacks used for
/// accessing data, but only some specific use-cases are supported.
#[derive(Clone, Copy, Debug, PartialEq, Eq, Structural)]
pub enum CGDataProviderHostObject {
    DataWithSize {
        data: ConstVoidPtr,
        size: GuestUSize,
        /// User-provided pointer passed to release callback.
        info: MutVoidPtr,
        release_callback: GuestFunction,
    },
    /// The release callback only takes `info`.
    Direct {
        data: ConstVoidPtr,
        size: GuestUSize,
        info: MutVoidPtr,
        release_info_callback: GuestFunction,
    },
    CGImage(id),
    CFData(id),
}

/// Where the bytes of a `CFData` lie in guest memory.
#[derive(Clone, Copy, Debug, PartialEq, Eq, Structural)]
pub struct DataSpan {
    pub ptr: ConstVoidPtr,
    pub len: u32,
}

pub struct State {
    pub providers: HashMap<id, CGDataProviderHostObject>,
    /// The pixels of images.
    pub images: HashMap<id, Vec<u8>>,
    /// The bytes of `CFData` objects.
    pub datas: HashMap<id, DataSpan>,
}

impl Default for State {
    fn default() -> (r: State)
        ensures
            r.providers@ == Map::<id, CGDataProviderHostObject>::empty(),
            r.images@ == Map::<id, Vec<u8>>::empty(),
            r.datas@ == Map::<id, DataSpan>::empty(),
    {
        State {
            providers: HashMap::new(),
            images: HashMap::new(),
            datas: HashMap::new(),
        }
    }
}

/// `s` with each run of slashes made one.
pub open spec fn single_slashes(s: Seq<char>) -> Seq<char>
    decreases s.len(),
{
    if s.len() == 0 {
        s
    } else {
        let front = single_slashes(s.drop_last());
        if s.last() == '/' && s.len() > 1 && s[s.len() - 2] == '/' {
            front
        } else {
            front.push(s.last())
        }
    }
}

/// Collapses runs of repeated `/` into a single `/`, without otherwise
/// touching the path. Keeps a single leading `/` if the original path was
/// absolute.
pub fn normalize_path(path: &Vec<char>) -> (r: Vec<char>)
    ensures
        r@ == single_slashes(path@),
{
    let n: usize = path.len();
    let mut out: Vec<char> = Vec::new();
    let mut i: usize = 0;
    assert(path@.take(0) =~= Seq::empty());
    assert(out@ =~= single_slashes(path@.take(0)));
    while i < n
        invariant
            i <= n == path@.len(),
            out@ == single_slashes(path@.take(i as int)),
        decreases n - i,
    {
        let ghost now = path@.take(i + 1);
        assert(now.drop_last() =~= path@.take(i as int));
        if !(path[i] == '/' && i > 0 && path[i - 1] == '/') {
            out.push(path[i]);
        }
        i = i + 1;
    }
    assert(path@.take(n as int) =~= path@);
    out
}

/// No two slashes stand side by side in a normalized path, and it starts and
/// ends as the path did.
pub proof fn law_normalized(s: Seq<char>)
    ensures
        ({
            let t = single_slashes(s);
            &&& s.len() > 0 ==> t.len() > 0 && t[0] == s[0] && t.last() == s.last()
            &&& forall|i: int| 0 <= i < t.len() - 1 ==> !(#[trigger] t[i] == '/' && t[i + 1] == '/')
            &&& t.len() <= s.len()
        }),
    decreases s.len(),
{
    if s.len() > 0 {
        law_normalized(s.drop_last());
        if s.len() > 1 {
            assert(s.drop_last().last() == s[s.len() - 2]);
        }
    }
}

/// A normalized path has the same non-empty parts, in the same order, and is
/// absolute where the path was.
pub proof fn law_normalize_keeps_parts(s: Seq<char>)
    ensures
        parts_of(single_slashes(s)) == parts_of(s),
        is_absolute(single_slashes(s)) == is_absolute(s),
{
    lemma_same_scan(s);
    law_normalized(s);
}

proof fn lemma_same_scan(s: Seq<char>)
    ensures
        scan_parts(single_slashes(s)) == scan_parts(s),
    decreases s.len(),
{
    if s.len() > 0 {
        let front = s.drop_last();
        lemma_same_scan(front);
        if s.last() == '/' && s.len() > 1 && s[s.len() - 2] == '/' {
            assert(front.last() == '/');
            assert(scan_parts(front).1.len() == 0);
            assert(scan_parts(s).1 =~= scan_parts(front).1);
        } else {
            let t = single_slashes(s);
            assert(t.drop_last() =~= single_slashes(front));
        }
    }
}

/// A normalized path is left as it is.
pub proof fn law_normalize_idempotent(s: Seq<char>)
    ensures
        single_slashes(single_slashes(s)) == single_slashes(s),
{
    law_normalized(s);
    lemma_clean_stays(single_slashes(s));
}

proof fn lemma_clean_stays(t: Seq<char>)
    requires
        forall|i: int| 0 <= i < t.len() - 1 ==> !(#[trigger] t[i] == '/' && t[i + 1] == '/'),
    ensures
        single_slashes(t) == t,
    decreases t.len(),
{
    if t.len() > 0 {
        let front = t.drop_last();
        assert forall|i: int| 0 <= i < front.len() - 1 implies !(#[trigger] front[i] == '/'
            && front[i + 1] == '/') by {
            assert(t[i] == front[i] && t[i + 1] == front[i + 1]);
        }
        lemma_clean_stays(front);
        if t.len() > 1 {
            assert(!(t[t.len() - 2] == '/' && t[t.len() - 2 + 1] == '/'));
        }
        assert(front.push(t.last()) =~= t);
    }
}

pub fn CGDataProviderRelease(env: &mut Environment, c: CGDataProviderRef)
    ensures
        *final(env) == old(env).with_objc(final(env).objc),
        final(env).objc.acted(old(env).objc, releases(c)),
{
    env.objc.release(c);
}

pub fn CGDataProviderRetain(env: &mut Environment, c: CGDataProviderRef) -> (r: CGDataProviderRef)
    ensures
        r == c,
        *final(env) == old(env).with_objc(final(env).objc),
        final(env).objc.acted(old(env).objc, retains(c)),
{
    env.objc.retain(c);
    c
}

/// A provider with the contents `host` was made at `r`.
pub open spec fn provider_made(
    before: Environment,
    after: Environment,
    host: CGDataProviderHostObject,
    r: id,
) -> bool {
    let b = before.framework_state.core_graphics.data_provider;
    let a = after.framework_state.core_graphics.data_provider;
    &&& r != nil
    &&& after == before.with_mem(after.mem).with_objc(after.objc).with_data_provider(
        State { providers: a.providers, ..b },
    )
    &&& after.objc.made(before.objc, r)
    &&& after.mem.placed(
        before.mem,
        r,
        le_bytes(before.objc.classes.cg_data_provider as int, 4),
    )
    &&& a.providers@ == b.providers@.insert(r, host)
}

fn make_provider(env: &mut Environment, host: CGDataProviderHostObject) -> (r: id)
    requires
        old(env).wf(),
        old(env).mem.has_room(4),
    ensures
        final(env).wf(),
        provider_made(*old(env), *final(env), host, r),
{
    let class: id = env.objc.classes.cg_data_provider;
    let r: id = env.objc.alloc_object(class, &mut env.mem);
    let _ = env.framework_state.core_graphics.data_provider.providers.insert(r, host);
    r
}

pub fn CGDataProviderCreateWithData(
    env: &mut Environment,
    info: MutVoidPtr,
    data: ConstVoidPtr,
    size: GuestUSize,
    release_callback: GuestFunction,
) -> (r: CGDataProviderRef)
    requires
        old(env).wf(),
        old(env).mem.has_room(4),
    ensures
        final(env).wf(),
        provider_made(
            *old(env),
            *final(env),
            (CGDataProviderHostObject::DataWithSize { data, size, info, release_callback }),
            r,
        ),
{
    make_provider(
        env,
        CGDataProviderHostObject::DataWithSize { data, size, info, release_callback },
    )
}

/// An object was retained, and a provider of it made.
pub open spec fn provider_of(
    before: Environment,
    after: Environment,
    object: id,
    host: CGDataProviderHostObject,
    r: id,
) -> bool {
    exists|kept: Environment| #[trigger]
        object_retained(before, kept, object) && provider_made(kept, after, host, r)
}

/// An object was retained.
pub open spec fn object_retained(before: Environment, after: Environment, object: id) -> bool {
    &&& after == before.with_objc(after.objc)
    &&& after.objc.acted(before.objc, retains(object))
}

/// A provider of an image's pixels.
pub fn from_cg_image(env: &mut Environment, cg_image: id) -> (r: CGDataProviderRef)
    requires
        old(env).wf(),
        old(env).mem.has_room(4),
    ensures
        final(env).wf(),
        provider_of(
            *old(env),
            *final(env),
            cg_image,
            CGDataProviderHostObject::CGImage(cg_image),
            r,
        ),
{
    env.objc.retain(cg_image);
    assert(object_retained(*old(env), *env, cg_image));
    make_provider(env, CGDataProviderHostObject::CGImage(cg_image))
}

pub fn CGDataProviderCreateWithCFData(env: &mut Environment, data: id) -> (r: CGDataProviderRef)
    requires
        old(env).wf(),
        old(env).mem.has_room(4),
    ensures
        final(env).wf(),
        provider_of(*old(env), *final(env), data, CGDataProviderHostObject::CFData(data), r),
{
    env.objc.retain(data);
    assert(object_retained(*old(env), *env, data));
    make_provider(env, CGDataProviderHostObject::CFData(data))
}

impl State {
    /// What the provider is made of is known.
    pub open spec fn known(&self, provider: id) -> bool {
        &&& self.providers@.contains_key(provider)
        &&& match self.providers@[provider] {
            CGDataProviderHostObject::CGImage(image) => self.images@.contains_key(image),
            CGDataProviderHostObject::CFData(data) => self.datas@.contains_key(data),
            _ => true,
        }
    }

    /// Where the bytes of a provider lie in guest memory; an image's pixels do
    /// not.
    pub open spec fn span(&self, provider: id) -> Option<DataSpan> {
        match self.providers@[provider] {
            CGDataProviderHostObject::DataWithSize { data, size, .. } => Some(
                DataSpan { ptr: data, len: size },
            ),
            CGDataProviderHostObject::Direct { data, size, .. } => Some(
                DataSpan { ptr: data, len: size },
            ),
            CGDataProviderHostObject::CGImage(_) => None,
            CGDataProviderHostObject::CFData(data) => Some(self.datas@[data]),
        }
    }

    /// The pixels of the image that a provider is of.
    pub open spec fn pixels(&self, provider: id) -> Seq<u8> {
        self.images@[self.providers@[provider]->CGImage_0]@
    }

    /// The number of bytes of a provider.
    pub open spec fn size(&self, provider: id) -> int {
        match self.span(provider) {
            Some(span) => span.len as int,
            None => self.pixels(provider).len() as int,
        }
    }

    fn find_span(&self, provider: id) -> (r: Option<DataSpan>)
        requires
            self.known(provider),
        ensures
            r == self.span(provider),
    {
        match self.providers.get(&provider) {
            Some(host) => match *host {
                CGDataProviderHostObject::DataWithSize { data, size, .. } => Some(
                    DataSpan { ptr: data, len: size },
                ),
                CGDataProviderHostObject::Direct { data, size, .. } => Some(
                    DataSpan { ptr: data, len: size },
                ),
                CGDataProviderHostObject::CGImage(_) => None,
                CGDataProviderHostObject::CFData(data) => match self.datas.get(&data) {
                    Some(span) => Some(*span),
                    None => None,
                },
            },
            None => None,
        }
    }

    fn copy_pixels(&self, provider: id) -> (r: Vec<u8>)
        requires
            self.known(provider),
            self.span(provider) is None,
        ensures
            r@ == self.pixels(provider),
    {
        match self.providers.get(&provider) {
            Some(host) => match *host {
                CGDataProviderHostObject::CGImage(image) => match self.images.get(&image) {
                    Some(pixels) => pixels.clone(),
                    None => Vec::new(),
                },
                _ => Vec::new(),
            },
            None => Vec::new(),
        }
    }
}

/// The bytes of a provider.
pub open spec fn provider_bytes(env: Environment, provider: id) -> Seq<u8> {
    let s = env.framework_state.core_graphics.data_provider;
    match s.span(provider) {
        Some(span) => if span.len == 0 {
            Seq::empty()
        } else {
            env.mem@.subrange(span.ptr as int, span.ptr + span.len)
        },
        None => s.pixels(provider),
    }
}

/// The bytes of a provider are there.
pub open spec fn provider_readable(env: Environment, provider: id) -> bool {
    let s = env.framework_state.core_graphics.data_provider;
    &&& s.known(provider)
    &&& s.span(provider) matches Some(span) ==> span.len == 0 || env.mem.valid(
        span.ptr as int,
        span.len as int,
    )
}

/// Generic interface for host code: a copy of the provider's bytes.
pub fn borrow_bytes(env: &Environment, provider: CGDataProviderRef) -> (r: Vec<u8>)
    requires
        env.wf(),
        provider_readable(*env, provider),
    ensures
        r@ == provider_bytes(*env, provider),
{
    match env.framework_state.core_graphics.data_provider.find_span(provider) {
        Some(span) => {
            let bytes: Vec<u8> = env.mem.bytes_at(span.ptr, span.len);
            assert(bytes@ =~= provider_bytes(*env, provider));
            bytes
        },
        None => env.framework_state.core_graphics.data_provider.copy_pixels(provider),
    }
}

/// What is to be made of a provider's bytes.
#[derive(Clone, Copy, Debug, PartialEq, Eq, Structural)]
pub enum DataCopy {
    /// A `CFData` with a copy of these bytes.
    CopyOf(DataSpan),
    /// A `CFData` that owns these bytes, which are a copy already.
    Owning(DataSpan),
}

/// What `CGDataProviderCopyData` does.
pub open spec fn copy_data_done(
    before: Environment,
    after: Environment,
    provider: id,
    r: DataCopy,
) -> bool {
    let s = before.framework_state.core_graphics.data_provider;
    match s.span(provider) {
        Some(span) => r == DataCopy::CopyOf(span) && after == before,
        None => {
            &&& r matches DataCopy::Owning(span) && span.len == s.pixels(provider).len()
                && after.mem.placed(before.mem, span.ptr, s.pixels(provider))
            &&& after == before.with_mem(after.mem)
        },
    }
}

/// `CFDataRef CGDataProviderCopyData(CGDataProviderRef provider);`, up to the
/// `CFData` that is to be made.
pub fn CGDataProviderCopyData(env: &mut Environment, provider: CGDataProviderRef) -> (r: DataCopy)
    requires
        old(env).wf(),
        ({
            let s = old(env).framework_state.core_graphics.data_provider;
            &&& s.known(provider)
            &&& s.span(provider) is None ==> old(env).mem.has_room(s.size(provider))
            &&& s.span(provider) is Some && !(s.providers@[provider] is CFData) ==> s.size(provider)
                <= i32::MAX
        }),
    ensures
        final(env).wf(),
        copy_data_done(*old(env), *final(env), provider, r),
{
    match env.framework_state.core_graphics.data_provider.find_span(provider) {
        Some(span) => DataCopy::CopyOf(span),
        None => {
            let pixels: Vec<u8> = env.framework_state.core_graphics.data_provider.copy_pixels(
                provider,
            );
            let ptr: u32 = env.mem.alloc_and_write(&pixels);
            DataCopy::Owning(DataSpan { ptr, len: pixels.len() as u32 })
        },
    }
}

/// The path that a file name stands for; bytes that are not text count as
/// none.
pub open spec fn filename_path(mem: Mem, filename: int) -> Seq<char> {
    if valid_utf8(mem.cstr(filename)) {
        single_slashes(decode_utf8(mem.cstr(filename)))
    } else {
        single_slashes(Seq::empty())
    }
}

/// What `CGDataProviderCreateWithFilename` does with the bytes of the file.
pub open spec fn provider_of_bytes(
    before: Environment,
    after: Environment,
    bytes: Seq<u8>,
    r: id,
) -> bool {
    exists|stored: Environment, buf: u32| #[trigger]
        bytes_stored(before, stored, buf, bytes) && provider_made(
            stored,
            after,
            CGDataProviderHostObject::DataWithSize {
                data: buf,
                size: bytes.len() as u32,
                info: 0,
                release_callback: 0,
            },
            r,
        )
}

/// Bytes were put into a new chunk.
pub open spec fn bytes_stored(
    before: Environment,
    after: Environment,
    buf: u32,
    bytes: Seq<u8>,
) -> bool {
    &&& after == before.with_mem(after.mem)
    &&& after.mem.placed(before.mem, buf, bytes)
}

/// `CGDataProviderRef CGDataProviderCreateWithFilename(const char *filename);`
pub fn CGDataProviderCreateWithFilename(env: &mut Environment, filename: ConstPtr) -> (r:
    CGDataProviderRef)
    requires
        old(env).wf(),
        old(env).mem.valid(filename as int, 0),
        old(env).fs.file_contents(filename_path(old(env).mem, filename as int)) matches Some(data)
            ==> data.len() <= u32::MAX && old(env).mem.has_rooms(data.len() as int, 4),
    ensures
        final(env).wf(),
        match old(env).fs.file_contents(filename_path(old(env).mem, filename as int)) {
            None => r == nil && *final(env) == *old(env),
            Some(data) => provider_of_bytes(*old(env), *final(env), data, r),
        },
{
    let path: Vec<char> = match env.mem.cstr_at_utf8(filename) {
        Some(text) => chars_of(text.as_str()),
        None => {
            let none: Vec<char> = Vec::new();
            assert(none@ =~= Seq::empty());
            none
        },
    };
    let normalized: Vec<char> = normalize_path(&path);
    match env.fs.read(&normalized) {
        None => nil,
        Some(bytes) => store_provider(env, &bytes),
    }
}

/// Puts bytes into a new chunk, and makes a provider of it.
fn store_provider(env: &mut Environment, bytes: &Vec<u8>) -> (r: id)
    requires
        old(env).wf(),
        bytes@.len() <= u32::MAX,
        old(env).mem.has_rooms(bytes@.len() as int, 4),
    ensures
        final(env).wf(),
        provider_of_bytes(*old(env), *final(env), bytes@, r),
{
    let buf: u32 = env.mem.alloc_and_write(bytes);
    let ghost stored = *env;
    proof {
        lemma_second_room(old(env).mem, env.mem, buf, bytes@.len() as int, 4);
    }
    assert(bytes_stored(*old(env), stored, buf, bytes@));
    CGDataProviderCreateWithData(env, 0, buf, bytes.len() as u32, 0)
}

/// `void *CGDataProviderGetInfo(CGDataProviderRef provider);`: not given out.
pub fn CGDataProviderGetInfo(env: &mut Environment, _provider: CGDataProviderRef) -> (r: MutVoidPtr)
    ensures
        *final(env) == *old(env),
        r == 0,
{
    0
}

/// `size_t CGDataProviderGetSize(CGDataProviderRef provider);`
pub fn CGDataProviderGetSize(env: &mut Environment, provider: CGDataProviderRef) -> (r: u64)
    requires
        old(env).framework_state.core_graphics.data_provider.known(provider),
        old(env).framework_state.core_graphics.data_provider.size(provider) <= u64::MAX,
    ensures
        *final(env) == *old(env),
        r == old(env).framework_state.core_graphics.data_provider.size(provider),
{
    match env.framework_state.core_graphics.data_provider.find_span(provider) {
        Some(span) => span.len as u64,
        None => env.framework_state.core_graphics.data_provider.copy_pixels(provider).len() as u64,
    }
}

/// How many bytes are asked for at a time.
pub const CHUNK_SIZE: GuestUSize = 16384;

/// A sequential provider that is being read.
pub struct SequentialRead {
    pub get_bytes: GuestFunction,
    pub release_info: GuestFunction,
    pub info: MutVoidPtr,
    /// Where the guest puts what it gives.
    pub buffer: MutVoidPtr,
    /// What it gave so far.
    pub data: Vec<u8>,
}

/// The start of `CGDataProviderCreateSequential`: the callbacks are looked up,
/// and a buffer is made for what the guest gives. Without a way to ask for
/// bytes there is no provider. The guest is then to be asked for
/// `CHUNK_SIZE` bytes.
pub fn CGDataProviderCreateSequential(
    env: &mut Environment,
    info: MutVoidPtr,
    callbacks: ConstVoidPtr,
) -> (r: Option<SequentialRead>)
    requires
        old(env).wf(),
        callbacks != 0 ==> old(env).mem.valid(callbacks as int, 20),
        callbacks != 0 && le_u32(old(env).mem@, callbacks + 4) != 0 ==> old(env).mem.has_room(
            CHUNK_SIZE as int,
        ),
    ensures
        final(env).wf(),
        if callbacks == 0 || le_u32(old(env).mem@, callbacks + 4) == 0 {
            r is None && *final(env) == *old(env)
        } else {
            &&& r is Some
            &&& r->0.get_bytes == le_u32(old(env).mem@, callbacks + 4)
            &&& r->0.release_info == le_u32(old(env).mem@, callbacks + 16)
            &&& r->0.info == info
            &&& r->0.data@ == Seq::<u8>::empty()
            &&& *final(env) == old(env).with_mem(final(env).mem)
            &&& final(env).mem.taken(old(env).mem, r->0.buffer, CHUNK_SIZE as int)
        },
{
    if callbacks == 0 {
        return None;
    }
    let get_bytes: u32 = env.mem.read_u32(callbacks + 4);
    let release_info: u32 = env.mem.read_u32(callbacks + 16);
    if get_bytes == 0 {
        return None;
    }
    let buffer: u32 = env.mem.allocate(CHUNK_SIZE);
    let data: Vec<u8> = Vec::new();
    assert(data@ =~= Seq::empty());
    Some(SequentialRead { get_bytes, release_info, info, buffer, data })
}

/// What the guest gave was taken over. A full buffer is asked for again;
/// otherwise the data is complete, the buffer is freed, and the guest's
/// information is to be released.
pub open spec fn sequential_taken(
    before: Environment,
    after: Environment,
    read: SequentialRead,
    next: SequentialRead,
    bytes_read: int,
    more: bool,
) -> bool {
    &&& next.data@ == if bytes_read == 0 {
        read.data@
    } else {
        read.data@ + before.mem@.subrange(read.buffer as int, read.buffer + bytes_read)
    }
    &&& next == (SequentialRead { data: next.data, ..read })
    &&& more == (bytes_read >= CHUNK_SIZE)
    &&& if more {
        after == before
    } else {
        &&& after == before.with_mem(after.mem).with_objc(after.objc)
        &&& after.mem.released(before.mem, read.buffer)
        &&& after.objc.acted(before.objc, calls1(read.release_info, read.info))
    }
}

/// Takes over what the guest gave, and tells whether to ask for more.
pub fn sequential_take(env: &mut Environment, read: SequentialRead, bytes_read: GuestUSize) -> (r: (
    SequentialRead,
    bool,
))
    requires
        old(env).wf(),
        old(env).mem.valid(read.buffer as int, bytes_read as int),
    ensures
        final(env).wf(),
        sequential_taken(*old(env), *final(env), read, r.0, bytes_read as int, r.1),
{
    let mut next: SequentialRead = read;
    let ghost had = next.data@;
    let mut chunk: Vec<u8> = env.mem.bytes_at(next.buffer, bytes_read);
    let ghost got = chunk@;
    next.data.append(&mut chunk);
    assert(next.data@ =~= had + got);
    assert(bytes_read == 0 ==> next.data@ =~= had);
    if bytes_read >= CHUNK_SIZE {
        return (next, true);
    }
    env.mem.free(next.buffer);
    env.objc.call1(next.release_info, next.info);
    (next, false)
}

/// The end of `CGDataProviderCreateSequential`: a provider of all that the guest
/// gave.
pub fn sequential_finish(env: &mut Environment, read: &SequentialRead) -> (r: CGDataProviderRef)
    requires
        old(env).wf(),
        read.data@.len() <= u32::MAX,
        old(env).mem.has_rooms(read.data@.len() as int, 4),
    ensures
        final(env).wf(),
        provider_of_bytes(*old(env), *final(env), read.data@, r),
{
    store_provider(env, &read.data)
}

/// What a provider that was made of bytes gives are those bytes.
pub proof fn law_provider_gives_bytes(
    before: Environment,
    after: Environment,
    bytes: Seq<u8>,
    r: id,
)
    requires
        before.wf(),
        after.wf(),
        bytes.len() <= u32::MAX,
        provider_of_bytes(before, after, bytes, r),
    ensures
        provider_bytes(after, r) == bytes,
        after.framework_state.core_graphics.data_provider.size(r) == bytes.len(),
{
    let (stored, buf): (Environment, u32) = choose|stored: Environment, buf: u32| #[trigger]
        bytes_stored(before, stored, buf, bytes) && provider_made(
            stored,
            after,
            CGDataProviderHostObject::DataWithSize {
                data: buf,
                size: bytes.len() as u32,
                info: 0,
                release_callback: 0,
            },
            r,
        );
    let s = after.framework_state.core_graphics.data_provider;
    let host = CGDataProviderHostObject::DataWithSize {
        data: buf,
        size: bytes.len() as u32,
        info: 0,
        release_callback: 0,
    };
    assert(s.providers@[r] == host);
    crate::mem::lemma_le_bytes_len(stored.objc.classes.cg_data_provider as int, 4);
    crate::heap::lemma_chunk_added(before.mem, stored.mem, buf, bytes.len() as int);
    let c = crate::mem::Chunk { base: buf, size: heap_size(bytes.len() as int) as u32 };
    let k = choose|k: int| 0 <= k < stored.mem.chunks@.len() && stored.mem.chunks@[k] == c;
    assert(stored.mem.chunks@[k] == c);
    assert(provider_bytes(after, r) =~= bytes);
}

/// What `CGDataProviderCreateDirect` does next.
#[derive(Clone, Copy, Debug, PartialEq, Eq, Structural)]
pub enum DirectStep {
    /// There is no provider.
    Refused,
    /// Call the function with `info`: it returns the address of the data.
    AskPointer(GuestFunction),
    /// Call the function with `info`, the buffer, the position zero and the
    /// size: it fills the buffer.
    AskBytes(GuestFunction, MutVoidPtr),
}

/// The low 32 bits of a size.
pub open spec fn guest_size(size: int) -> int {
    size % 0x1_0000_0000
}

/// What the start of `CGDataProviderCreateDirect` does.
pub open spec fn direct_started(
    before: Environment,
    after: Environment,
    size: int,
    callbacks: int,
    r: DirectStep,
) -> bool {
    let get_pointer = le_u32(before.mem@, callbacks + 4);
    let get_bytes = le_u32(before.mem@, callbacks + 12);
    if callbacks == 0 || size <= 0 || (get_pointer == 0 && get_bytes == 0) {
        r == DirectStep::Refused && after == before
    } else if get_pointer != 0 {
        r == DirectStep::AskPointer(get_pointer as u32) && after == before
    } else {
        &&& r matches DirectStep::AskBytes(func, buf) && func == get_bytes && (if before.mem.has_room(
            guest_size(size),
        ) {
            after.mem.taken(before.mem, buf, guest_size(size))
        } else {
            buf == 0 && after.mem == before.mem
        })
        &&& after == before.with_mem(after.mem)
    }
}

/// The start of `CGDataProviderCreateDirect`: what to do next, and the guest's
/// function for releasing its information.
pub fn CGDataProviderCreateDirect(env: &mut Environment, size: i64, callbacks: ConstVoidPtr) -> (r: (
    DirectStep,
    GuestFunction,
))
    requires
        old(env).wf(),
        callbacks != 0 && size > 0 ==> old(env).mem.valid(callbacks as int, 20),
    ensures
        final(env).wf(),
        direct_started(*old(env), *final(env), size as int, callbacks as int, r.0),
        r.1 == if callbacks == 0 || size <= 0 {
            0
        } else {
            le_u32(old(env).mem@, callbacks + 16)
        },
{
    if callbacks == 0 || size <= 0 {
        return (DirectStep::Refused, 0);
    }
    let size_u: u32 = (size as u64 % 0x1_0000_0000) as u32;
    let get_pointer: u32 = env.mem.read_u32(callbacks + 4);
    let get_bytes: u32 = env.mem.read_u32(callbacks + 12);
    let release_info: u32 = env.mem.read_u32(callbacks + 16);
    if get_pointer != 0 {
        return (DirectStep::AskPointer(get_pointer), release_info);
    }
    if get_bytes != 0 {
        let buf: u32 = env.mem.allocate(size_u);
        return (DirectStep::AskBytes(get_bytes, buf), release_info);
    }
    (DirectStep::Refused, release_info)
}

/// The end of `CGDataProviderCreateDirect`, once the data is at `data`: a
/// provider of it, unless it is null. `release_info` is the guest's function
/// for its information, which was read at the start.
pub fn direct_finish(
    env: &mut Environment,
    info: MutVoidPtr,
    size: i64,
    release_info: GuestFunction,
    data: ConstVoidPtr,
) -> (r: CGDataProviderRef)
    requires
        old(env).wf(),
        size > 0,
        data != 0 ==> old(env).mem.has_room(4),
    ensures
        final(env).wf(),
        if data == 0 {
            r == nil && *final(env) == *old(env)
        } else {
            provider_made(
                *old(env),
                *final(env),
                (CGDataProviderHostObject::Direct {
                    data,
                    size: guest_size(size as int) as u32,
                    info,
                    release_info_callback: release_info,
                }),
                r,
            )
        },
{
    if data == 0 {
        return nil;
    }
    let size_u: u32 = (size as u64 % 0x1_0000_0000) as u32;
    make_provider(
        env,
        CGDataProviderHostObject::Direct {
            data,
            size: size_u,
            info,
            release_info_callback: release_info,
        },
    )
}

/// What the end of a provider sends.
pub open spec fn dealloc_actions(host: CGDataProviderHostObject) -> Seq<Action> {
    match host {
        CGDataProviderHostObject::DataWithSize { data, size, info, release_callback } => calls3(
            release_callback,
            info,
            data,
            size,
        ),
        CGDataProviderHostObject::Direct { info, release_info_callback, .. } => calls1(
            release_info_callback,
            info,
        ),
        CGDataProviderHostObject::CGImage(image) => releases(image),
        CGDataProviderHostObject::CFData(data) => releases(data),
    }
}

/// `- (void)dealloc`: what a provider holds is released.
pub fn dealloc(env: &mut Environment, this: id)
    requires
        old(env).wf(),
        old(env).framework_state.core_graphics.data_provider.providers@.contains_key(this),
        old(env).objc.has_host_object(this),
    ensures
        final(env).wf(),
        ({
            let b = old(env).framework_state.core_graphics.data_provider;
            let a = final(env).framework_state.core_graphics.data_provider;
            &&& *final(env) == old(env).with_mem(final(env).mem).with_objc(
                final(env).objc,
            ).with_data_provider((State { providers: a.providers, ..b }))
            &&& a.providers@ == b.providers@.remove(this)
            &&& final(env).mem.released(old(env).mem, this)
            &&& exists|acted: ObjC| #[trigger]
                acted.acted(old(env).objc, dealloc_actions(b.providers@[this])) && final(env).objc.forgot(
                    acted,
                    this,
                )
        }),
{
    let ghost objc = env.objc;
    let removed: Option<CGDataProviderHostObject> =
        env.framework_state.core_graphics.data_provider.providers.remove(&this);
    let ghost b = old(env).framework_state.core_graphics.data_provider;
    assert(env.framework_state.core_graphics.data_provider.providers@ =~= b.providers@.remove(
        this,
    ));
    if let Some(host) = removed {
        match host {
            CGDataProviderHostObject::DataWithSize { data, size, info, release_callback } => {
                env.objc.call3(release_callback, info, data, size);
            },
            CGDataProviderHostObject::Direct { data, size, info, release_info_callback } => {
                env.objc.call1(release_info_callback, info);
            },
            CGDataProviderHostObject::CGImage(image) => {
                env.objc.release(image);
            },
            CGDataProviderHostObject::CFData(data) => {
                env.objc.release(data);
            },
        }
    }
    let ghost acted = env.objc;
    assert(acted.acted(objc, dealloc_actions(b.providers@[this])));
    env.objc.dealloc_object(this, &mut env.mem);
}

} // verus!

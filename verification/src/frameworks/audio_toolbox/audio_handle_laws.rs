//! What handles of audio files and streams are made of, and what a stream keeps,
//! tells its listener and delivers, byte by byte.
use vstd::prelude::*;

use crate::environment::Environment;
use crate::frameworks::audio_toolbox::audio_file::{
    bytes_buffered, bytes_start_with, callback_read_made, file_format_known, mirrors_edge,
    mirrors_edge_bv, mirrors_edge_inc, packets_delivered, parse_answered, stream_opened, AudioFile,
    AudioFileStreamHostObject, CallbackRead, PacketsCall, ParseAttempt, ParseStep,
};
use crate::mem::{heap_size, le_bytes, le_u32, lemma_le_bytes_4, Mem};

verus! {

/// The streams that there are.
pub open spec fn streams_in(env: Environment) -> Map<u32, AudioFileStreamHostObject> {
    env.framework_state.audio_toolbox.audio_file.audio_file_streams@
}

/// The application's files have a known format where its name starts with
/// `com.ea.mirrorsedge.bv` or `com.ea.mirrorsedge.inc`: nothing but the beginning
/// counts.
pub proof fn law_file_format_known(name: Seq<u8>, rest: Seq<u8>)
    ensures
        ({
            let start = seq![
                0x63u8,
                0x6f,
                0x6d,
                0x2e,
                0x65,
                0x61,
                0x2e,
                0x6d,
                0x69,
                0x72,
                0x72,
                0x6f,
                0x72,
                0x73,
                0x65,
                0x64,
                0x67,
                0x65,
                0x2e,
            ];
            &&& file_format_known(start + seq![0x62u8, 0x76] + rest)
            &&& file_format_known(start + seq![0x69u8, 0x6e, 0x63] + rest)
            &&& file_format_known(name) ==> name.len() >= 21 && name.take(19) == start && (
            name[19] == 0x62 && name[20] == 0x76 || name.len() >= 22 && name[19] == 0x69 && name[20]
                == 0x6e && name[21] == 0x63)
        }),
{
    let start = mirrors_edge();
    let bv = start + seq![0x62u8, 0x76] + rest;
    let inc = start + seq![0x69u8, 0x6e, 0x63] + rest;
    assert(bv.take(21) =~= mirrors_edge_bv());
    assert(inc.take(22) =~= mirrors_edge_inc());
    if bytes_start_with(name, mirrors_edge_bv()) {
        let head = name.take(21);
        assert(name.take(19) =~= head.take(19));
        assert(head.take(19) =~= start);
        assert(name[19] == head[19] && name[20] == head[20]);
    }
    if bytes_start_with(name, mirrors_edge_inc()) {
        let head = name.take(22);
        assert(name.take(19) =~= head.take(19));
        assert(head.take(19) =~= start);
        assert(name[19] == head[19] && name[20] == head[20] && name[21] == head[21]);
    }
}

/// A new stream is found under its handle, which is not null and lies in no chunk
/// that was there before. The other streams stay.
pub proof fn law_stream_opened(
    before: Environment,
    after: Environment,
    stream: AudioFileStreamHostObject,
    handle: u32,
    other: u32,
)
    requires
        stream_opened(before, after, stream, handle),
    ensures
        handle != 0,
        streams_in(after).contains_key(handle),
        streams_in(after)[handle] == stream,
        other != handle ==> (streams_in(after).contains_key(other) <==> streams_in(
            before,
        ).contains_key(other)) && streams_in(after)[other] == streams_in(before)[other],
        forall|i: int|
            0 <= i < before.mem.chunks@.len() ==> handle < (
            #[trigger] before.mem.chunks@[i]).base || before.mem.chunks@[i].base
                + before.mem.chunks@[i].size <= handle,
        after.fs == before.fs,
{
    assert(heap_size(1) >= 1);
}

/// What the guest is to read of a file: all of it, into memory of its own, and how
/// many bytes it read into a word that starts as zero.
pub proof fn law_callback_read(
    before: Environment,
    after: Environment,
    size: int,
    read: CallbackRead,
)
    requires
        before.wf(),
        0 < size <= 0xffff_ffff,
        callback_read_made(before, after, size, read),
    ensures
        read.size == size,
        le_u32(after.mem@, read.bytes_read_ptr as int) == 0,
        after.mem.allocated(read.data_ptr as int),
        after.mem.allocated(read.bytes_read_ptr as int),
        read.data_ptr + size <= read.bytes_read_ptr || read.bytes_read_ptr + 4 <= read.data_ptr,
        after.fs == before.fs,
        after.libc_state == before.libc_state,
{
    let mid = choose|mid: Mem| #[trigger]
        mid.taken(before.mem, read.data_ptr, size) && after.mem.placed(
            mid,
            read.bytes_read_ptr,
            le_bytes(0, 4),
        );
    lemma_le_bytes_4(0);
    assert(le_bytes(0, 4).len() == 4);
    assert(heap_size(size) >= size && heap_size(4) >= 4);
    crate::heap::lemma_chunk_added(before.mem, mid, read.data_ptr, size);
    crate::heap::lemma_chunk_added(mid, after.mem, read.bytes_read_ptr, 4);
    let n = before.mem.bytes.len();
    assert(before.mem@.len() == n);
    assert(heap_size(size) <= before.mem@.len());
    let c = crate::mem::Chunk { base: read.data_ptr, size: heap_size(size) as u32 };
    let i = choose|i: int| 0 <= i < mid.chunks@.len() && mid.chunks@[i] == c;
    assert(mid.chunks@[i] == c);
}

/// The bytes that a stream is given go behind those that it has, and until its
/// file was parsed all of them are to be parsed; the other streams stay.
pub proof fn law_bytes_buffered(
    before: Environment,
    after: Environment,
    id: u32,
    bytes: Seq<u8>,
    r: ParseStep,
    other: u32,
)
    requires
        bytes_buffered(before, after, id, bytes, r),
    ensures
        ({
            let b = streams_in(before)[id];
            let a = streams_in(after)[id];
            &&& a.buffer@.len() == b.buffer@.len() + bytes.len()
            &&& forall|i: int| 0 <= i < b.buffer@.len() ==> a.buffer@[i] == #[trigger] b.buffer@[i]
            &&& forall|i: int|
                0 <= i < bytes.len() ==> a.buffer@[b.buffer@.len() + i] == #[trigger] bytes[i]
            &&& a.bytes_delivered == b.bytes_delivered
            &&& a.parsed_audio_file == b.parsed_audio_file
            &&& b.parsed_audio_file is Some ==> r is Deliver
            &&& b.parsed_audio_file is None ==> r is Parse && (r->Parse_0)@ == a.buffer@
        }),
        other != id ==> streams_in(after)[other] == streams_in(before)[other],
        after.mem == before.mem,
{
}

/// A stream whose bytes were parsed for the first time keeps the file, and tells
/// its listener of `dfmt` with a word of flags that is zero. Before that and after
/// that it tells nothing.
pub proof fn law_parse_answered(
    before: Environment,
    after: Environment,
    id: u32,
    parsed: Option<AudioFile>,
    attempt: ParseAttempt,
)
    requires
        before.wf(),
        parse_answered(before, after, id, parsed, attempt),
    ensures
        ({
            let b = streams_in(before)[id];
            let a = streams_in(after)[id];
            let had = b.parsed_audio_file is Some;
            &&& attempt.ready <==> had || parsed is Some
            &&& had || parsed is None ==> attempt.listener is None && after == before
            &&& !had && parsed is Some ==> {
                &&& attempt.listener is Some
                &&& attempt.listener->0.func == b.property_listener_proc
                &&& attempt.listener->0.client_data == b.client_data
                &&& attempt.listener->0.stream == id
                &&& attempt.listener->0.property == 0x64666d74
                &&& le_u32(after.mem@, attempt.listener->0.flags as int) == 0
                &&& after.mem.allocated(attempt.listener->0.flags as int)
                &&& a.parsed_audio_file == parsed
                &&& a.buffer == b.buffer
                &&& a.bytes_delivered == b.bytes_delivered
            }
        }),
{
    let b = streams_in(before)[id];
    lemma_le_bytes_4(0);
    assert(le_bytes(0, 4).len() == 4);
    assert(heap_size(4) >= 4);
    if b.parsed_audio_file is None && parsed is Some {
        let flags = attempt.listener->0.flags;
        crate::heap::lemma_chunk_added(before.mem, after.mem, flags, 4);
    }
}

/// The packets that a stream delivers are the bytes behind those that it delivered
/// before, up to the last whole packet, in memory of their own. They then count as
/// delivered.
pub proof fn law_packets_bytes(
    before: Environment,
    after: Environment,
    id: u32,
    call: PacketsCall,
    size: int,
)
    requires
        before.wf(),
        packets_delivered(before, after, id, call),
        streams_in(before)[id].parsed_audio_file is Some,
        size == streams_in(before)[id].parsed_audio_file->0.packet_size,
        size > 0,
        call.num_bytes > 0,
    ensures
        ({
            let b = streams_in(before)[id];
            let a = streams_in(after)[id];
            let from = b.bytes_delivered as int;
            &&& call.func == b.packets_proc
            &&& call.client_data == b.client_data
            &&& call.num_packets == call.num_bytes as int / size
            &&& (from + call.num_bytes) % size == 0
            &&& from + call.num_bytes <= b.buffer@.len() < from + call.num_bytes + size
            &&& forall|i: int|
                from <= i < from + call.num_bytes ==> after.mem@[call.data + (i - from)]
                    == #[trigger] b.buffer@[i]
            &&& a.bytes_delivered == from + call.num_bytes
            &&& a.buffer == b.buffer
            &&& a.parsed_audio_file == b.parsed_audio_file
        }),
{
    let b = streams_in(before)[id];
    let total = b.buffer@.len() as int;
    let from = b.bytes_delivered as int;
    let n = call.num_bytes as int;
    vstd::arithmetic::div_mod::lemma_mod_bound(total, size);
    vstd::arithmetic::div_mod::lemma_fundamental_div_mod(total, size);
    let q = total / size;
    assert(size * q == total - total % size);
    vstd::arithmetic::mul::lemma_mul_is_commutative(q, size);
    vstd::arithmetic::div_mod::lemma_mod_multiples_basic(q, size);
    assert(from + n == q * size);
    let len = b.buffer.len();
    assert(b.buffer@.len() == len);
    let data = b.buffer@.subrange(from, from + n);
    assert(heap_size(n) >= n);
    assert forall|i: int| from <= i < from + n implies after.mem@[call.data + (i - from)]
        == #[trigger] b.buffer@[i] by {
        assert(data[i - from] == b.buffer@[i]);
    }
}

} // verus!

//! What is read of audio files, by the numbers of the properties and the places
//! of the bytes.
use vstd::prelude::*;

use crate::environment::Environment;
use crate::frameworks::audio_toolbox::audio_file::{
    audio_bytes, description_bytes, file_given, file_opened, get_property_done, hint_known,
    open_status, property_known, read_bytes_done, read_packets_done, size_and_property_put,
    size_of_property, stream_property_readable, stream_property_size, undelivered, word_if,
    word_put, words_put, AudioFile, AudioFileOpenError, AudioFileStreamHostObject,
    AudioStreamBasicDescription,
};
use crate::mem::{le_bytes, le_u32, lemma_le_bytes_4, lemma_le_bytes_8, Mem};

verus! {

/// The file behind a handle.
pub open spec fn file_behind(env: Environment, handle: u32) -> AudioFile {
    env.framework_state.audio_toolbox.audio_file.audio_files@[handle].audio_file
}

/// How many bytes each property takes: `ffmt` and `pkub` four, `dfmt` forty,
/// `pnfo` sixteen, and `bcnt`, `pcnt` and `edur` eight. There are no others.
pub proof fn law_property_sizes(property: u32)
    ensures
        property == 0x66666d74 || property == 0x706b7562 ==> size_of_property(property) == 4,
        property == 0x64666d74 ==> size_of_property(property) == 40,
        property == 0x706e666f ==> size_of_property(property) == 16,
        property == 0x62636e74 || property == 0x70636e74 || property == 0x65647572
            ==> size_of_property(property) == 8,
        property_known(property) <==> property == 0x66666d74 || property == 0x706b7562 || property
            == 0x64666d74 || property == 0x706e666f || property == 0x62636e74 || property
            == 0x70636e74 || property == 0x65647572,
{
}

/// The sizes of the properties of a stream, which has neither a duration nor a
/// packet table; that of the file format, which is known, cannot be read.
pub proof fn law_stream_property_sizes(property: u32)
    ensures
        stream_property_size(property) == (if property == 0x64666d74 {
            Some(40int)
        } else if property == 0x66666d74 || property == 0x706b7562 {
            Some(4int)
        } else if property == 0x62636e74 || property == 0x70636e74 {
            Some(8int)
        } else {
            None
        }),
        stream_property_readable(property) <==> property == 0x64666d74 || property == 0x706b7562
            || property == 0x62636e74 || property == 0x70636e74,
{
}

/// The status of a file that cannot be opened: `typ?` where it cannot be decoded,
/// and `wht?` otherwise. Known kinds are `caff`, `AIFF` and none.
pub proof fn law_open_status(e: AudioFileOpenError, hint: u32)
    ensures
        open_status(e) == (if e is FileDecodeError {
            0x7479703fi32
        } else {
            0x7768743fi32
        }),
        hint_known(hint) <==> hint == 0 || hint == 0x63616666 || hint == 0x41494646,
{
}

/// The word at `p` and the next, as one number.
pub open spec fn long_at(s: Seq<u8>, p: int) -> int {
    le_u32(s, p) + 0x1_0000_0000 * le_u32(s, p + 4)
}

/// A description takes forty bytes: the sample rate in eight, and then the format,
/// its flags, the bytes in a packet, the frames in a packet, the bytes in a frame,
/// the channels, the bits of each and a word that is reserved.
pub proof fn law_description(d: AudioStreamBasicDescription)
    ensures
        ({
            let s = description_bytes(d);
            &&& s.len() == 40
            &&& long_at(s, 0) == d.sample_rate
            &&& le_u32(s, 8) == d.format_id
            &&& le_u32(s, 12) == d.format_flags
            &&& le_u32(s, 16) == d.bytes_per_packet
            &&& le_u32(s, 20) == d.frames_per_packet
            &&& le_u32(s, 24) == d.bytes_per_frame
            &&& le_u32(s, 28) == d.channels_per_frame
            &&& le_u32(s, 32) == d.bits_per_channel
            &&& le_u32(s, 36) == d.reserved
        }),
{
    let a = le_bytes(d.sample_rate as int, 8);
    let b = a + le_bytes(d.format_id as int, 4);
    let c = b + le_bytes(d.format_flags as int, 4);
    let e = c + le_bytes(d.bytes_per_packet as int, 4);
    let f = e + le_bytes(d.frames_per_packet as int, 4);
    let g = f + le_bytes(d.bytes_per_frame as int, 4);
    let h = g + le_bytes(d.channels_per_frame as int, 4);
    let i = h + le_bytes(d.bits_per_channel as int, 4);
    lemma_long(d.sample_rate as int);
    lemma_word_behind(a, d.format_id as int);
    lemma_word_behind(b, d.format_flags as int);
    lemma_word_behind(c, d.bytes_per_packet as int);
    lemma_word_behind(e, d.frames_per_packet as int);
    lemma_word_behind(f, d.bytes_per_frame as int);
    lemma_word_behind(g, d.channels_per_frame as int);
    lemma_word_behind(h, d.bits_per_channel as int);
    lemma_word_behind(i, d.reserved as int);
}

proof fn lemma_long(v: int)
    requires
        0 <= v <= 0xffff_ffff_ffff_ffff,
    ensures
        le_bytes(v, 8).len() == 8,
        long_at(le_bytes(v, 8), 0) == v,
{
    let low = v % 0x1_0000_0000;
    let high = v / 0x1_0000_0000;
    let none = Seq::<u8>::empty();
    lemma_le_bytes_8(v);
    lemma_word_behind(none, low);
    assert(none + le_bytes(low, 4) =~= le_bytes(low, 4));
    lemma_word_behind(le_bytes(low, 4), high);
    assert(le_u32(le_bytes(v, 8), 0) == low);
}

/// A word behind other bytes is read there, and leaves those before it alone.
proof fn lemma_word_behind(s: Seq<u8>, v: int)
    requires
        0 <= v <= 0xffff_ffff,
    ensures
        ({
            let t = s + le_bytes(v, 4);
            &&& t.len() == s.len() + 4
            &&& le_u32(t, s.len() as int) == v
            &&& forall|p: int| 0 <= p && p + 4 <= s.len() ==> #[trigger] le_u32(t, p) == le_u32(
                s,
                p,
            )
        }),
{
    lemma_le_bytes_4(v);
}

/// A word that was stored is read where it was stored, and nothing else changed.
proof fn lemma_word_stored(before: Mem, after: Mem, p: int, v: int)
    requires
        0 <= v <= 0xffff_ffff,
        0 <= p,
        p + 4 <= before@.len(),
        after.stored(before, p, le_bytes(v, 4)),
    ensures
        le_u32(after@, p) == v,
        after@.len() == before@.len(),
        forall|i: int|
            0 <= i < before@.len() && (i < p || p + 4 <= i) ==> #[trigger] after@[i] == before@[i],
{
    lemma_le_bytes_4(v);
}

proof fn lemma_long_stored(before: Mem, after: Mem, p: int, v: int)
    requires
        0 <= v <= 0xffff_ffff_ffff_ffff,
        0 <= p,
        p + 8 <= before@.len(),
        after.stored(before, p, le_bytes(v, 8)),
    ensures
        long_at(after@, p) == v,
{
    lemma_long(v);
    let b = le_bytes(v, 8);
    assert(after@[p] == b[0] && after@[p + 1] == b[1] && after@[p + 2] == b[2] && after@[p + 3]
        == b[3] && after@[p + 4] == b[4] && after@[p + 5] == b[5] && after@[p + 6] == b[6]
        && after@[p + 7] == b[7]);
}

/// What a property of a file gives: that the file is a `WAVE`, how many bytes and
/// packets it has, how large a packet is at most, and how long it lasts. A null
/// file is refused with -50, and a size that is not that of the property with
/// `!siz`.
pub proof fn law_get_property(
    before: Environment,
    after: Environment,
    handle: u32,
    property: u32,
    io_size: int,
    out: int,
    r: i32,
)
    requires
        before.mem.valid(out, 8),
        get_property_done(before, after, handle, property, io_size, out, r),
        file_behind(before, handle).data@.len() <= 0xffff_ffff_ffff_ffff,
    ensures
        handle == 0 ==> r == -50 && after == before,
        handle != 0 && property_known(property) && le_u32(before.mem@, io_size) != (if property
            == 0x66666d74 || property == 0x706b7562 {
            4int
        } else if property == 0x64666d74 {
            40
        } else if property == 0x706e666f {
            16
        } else {
            8
        }) ==> r == 0x2173697a && after == before,
        handle != 0 && r == 0 ==> {
            let f = file_behind(before, handle);
            &&& property == 0x66666d74 ==> le_u32(after.mem@, out) == 0x57415645
            &&& property == 0x706b7562 ==> le_u32(after.mem@, out) == f.packet_size_upper_bound
            &&& property == 0x62636e74 ==> long_at(after.mem@, out) == f.data@.len()
            &&& property == 0x70636e74 ==> long_at(after.mem@, out) == f.packet_count
            &&& property == 0x65647572 ==> long_at(after.mem@, out) == f.estimated_duration
        },
        r == 0 || r == -50 || r == 0x2173697a || r == 0x7074793f,
        handle != 0 && property == 0x706e666f && le_u32(before.mem@, io_size) == 16 ==> r
            == 0x7074793f && after == before,
{
    let f = file_behind(before, handle);
    if handle != 0 && r == 0 {
        if property == 0x66666d74 {
            lemma_word_stored(before.mem, after.mem, out, 0x57415645);
        } else if property == 0x706b7562 {
            lemma_word_stored(before.mem, after.mem, out, f.packet_size_upper_bound as int);
        } else if property == 0x62636e74 {
            lemma_long_stored(before.mem, after.mem, out, f.data@.len() as int);
        } else if property == 0x70636e74 {
            lemma_long_stored(before.mem, after.mem, out, f.packet_count as int);
        } else if property == 0x65647572 {
            lemma_long_stored(before.mem, after.mem, out, f.estimated_duration as int);
        }
    }
}

/// The format of a file is its description.
pub proof fn law_get_format(
    before: Environment,
    after: Environment,
    handle: u32,
    io_size: int,
    out: int,
)
    requires
        before.mem.valid(out, 40),
        handle != 0,
        get_property_done(before, after, handle, 0x64666d74, io_size, out, 0),
    ensures
        forall|i: int|
            0 <= i < 40 ==> after.mem@[out + i] == #[trigger] description_bytes(
                file_behind(before, handle).description,
            )[i],
{
    law_description(file_behind(before, handle).description);
    let d = description_bytes(file_behind(before, handle).description);
    assert forall|i: int| 0 <= i < 40 implies after.mem@[out + i] == #[trigger] d[i] by {}
}

/// The bytes of a file that a read gets: from its start on, as many as are asked
/// for and there are.
pub proof fn law_audio_bytes(data: Seq<u8>, start: int, n: int)
    requires
        0 <= start,
        0 <= n,
    ensures
        ({
            let left = if start < data.len() {
                data.len() - start
            } else {
                0
            };
            let b = audio_bytes(data, start, n);
            &&& b.len() == if n < left {
                n
            } else {
                left
            }
            &&& forall|i: int| 0 <= i < b.len() ==> #[trigger] b[i] == data[start + i]
        }),
{
}

/// A read of bytes puts them into the buffer and their number where the number
/// wanted was; where there are fewer than that, the end is told with -39.
pub proof fn law_read_audio(
    before: Environment,
    after: Environment,
    handle: u32,
    start: int,
    io_count: int,
    out: int,
    r: i32,
)
    requires
        0 <= start,
        before.mem.valid(io_count, 4),
        before.mem.valid(out, le_u32(before.mem@, io_count)),
        io_count + 4 <= out || out + le_u32(before.mem@, io_count) <= io_count,
        read_bytes_done(before, after, handle, start, io_count, out, r),
    ensures
        handle == 0 ==> r == -50 && after == before,
        handle != 0 ==> {
            let data = file_behind(before, handle).data@;
            let n = le_u32(before.mem@, io_count);
            let left = if start < data.len() {
                data.len() - start
            } else {
                0
            };
            let got = if n < left {
                n
            } else {
                left
            };
            &&& le_u32(after.mem@, io_count) == got
            &&& r == (if got < n {
                -39i32
            } else {
                0
            })
            &&& forall|i: int| 0 <= i < got ==> after.mem@[out + i] == #[trigger] data[start + i]
        },
{
    if handle != 0 {
        let data = file_behind(before, handle).data@;
        let n = le_u32(before.mem@, io_count);
        law_audio_bytes(data, start, n);
        let b = audio_bytes(data, start, n);
        let mid = choose|mid: Mem| #[trigger]
            mid.stored(before.mem, out, b) && after.mem.stored(
                mid,
                io_count,
                le_bytes(b.len() as int, 4),
            );
        lemma_word_stored(mid, after.mem, io_count, b.len() as int);
        assert forall|i: int| 0 <= i < b.len() implies after.mem@[out + i] == #[trigger] data[start
            + i] by {
            assert(mid@[out + i] == b[i]);
        }
    }
}

/// A read of packets is one of their bytes: it starts at the packet's place, and
/// as many packets are told as are whole.
pub proof fn law_read_packets(
    before: Environment,
    after: Environment,
    handle: u32,
    out_bytes: int,
    start: int,
    io_packets: int,
    out: int,
    r: i32,
    size: int,
    wanted: int,
    at: int,
)
    requires
        handle != 0,
        0 <= start,
        size == file_behind(before, handle).packet_size,
        size > 0,
        wanted == le_u32(before.mem@, io_packets) * size,
        wanted <= 0xffff_ffff,
        at == size * start,
        0 <= at,
        before.mem.valid(out_bytes, 4),
        before.mem.valid(io_packets, 4),
        before.mem.valid(out, wanted),
        out_bytes + 4 <= out || out + wanted <= out_bytes,
        out_bytes + 4 <= io_packets || io_packets + 4 <= out_bytes,
        io_packets + 4 <= out || out + wanted <= io_packets,
        read_packets_done(before, after, handle, out_bytes, start, io_packets, out, r),
    ensures
        ({
            let data = file_behind(before, handle).data@;
            let left = if at < data.len() {
                data.len() - at
            } else {
                0
            };
            let got = if wanted < left {
                wanted
            } else {
                left
            };
            &&& le_u32(after.mem@, out_bytes) == got
            &&& le_u32(after.mem@, io_packets) == got / size
            &&& forall|i: int| 0 <= i < got ==> after.mem@[out + i] == #[trigger] data[at + i]
            &&& r == (if got < wanted {
                -39i32
            } else {
                0
            })
        }),
{
    let (asked, read) = choose|asked: Environment, read: Environment|
        {
            &&& #[trigger] word_put(before, asked, out_bytes, wanted)
            &&& #[trigger] read_bytes_done(asked, read, handle, at, out_bytes, out, r)
            &&& word_put(read, after, io_packets, le_u32(read.mem@, out_bytes) / size)
        };
    assert(wanted >= 0) by (nonlinear_arith)
        requires
            wanted == le_u32(before.mem@, io_packets) * size,
            size > 0,
            le_u32(before.mem@, io_packets) >= 0,
    ;
    lemma_word_stored(before.mem, asked.mem, out_bytes, wanted);
    law_read_audio(asked, read, handle, at, out_bytes, out, r);
    let got = le_u32(read.mem@, out_bytes);
    assert(0 <= got / size <= got) by (nonlinear_arith)
        requires
            0 <= got,
            0 < size,
    ;
    lemma_word_stored(read.mem, after.mem, io_packets, got / size);
    let data = file_behind(before, handle).data@;
    assert forall|i: int| 0 <= i < got implies after.mem@[out + i] == #[trigger] data[at + i] by {
        assert(read.mem@[out + i] == data[at + i]);
    }
}

/// A file that was opened is the one behind the handle that is given out, and
/// those behind other handles are as they were.
pub proof fn law_file_given(
    before: Environment,
    after: Environment,
    file: AudioFile,
    out: int,
)
    requires
        before.mem.valid(out, 4),
        file_given(before, after, file, out),
    ensures
        ({
            let files = after.framework_state.audio_toolbox.audio_file.audio_files@;
            let handle = le_u32(after.mem@, out);
            &&& handle != 0
            &&& files.contains_key(handle as u32)
            &&& files[handle as u32].audio_file == file
        }),
        forall|h: u32|
            before.framework_state.audio_toolbox.audio_file.audio_files@.contains_key(h) && h
                != le_u32(after.mem@, out) ==> #[trigger] file_behind(after, h) == file_behind(
                before,
                h,
            ),
{
    let (opened, handle) = choose|opened: Environment, handle: u32| #[trigger]
        file_opened(before, opened, file, handle) && word_put(opened, after, out, handle as int);
    lemma_le_bytes_4(handle as int);
}

/// Two words were put where they were asked for, the second last.
pub proof fn law_words_put(
    before: Environment,
    after: Environment,
    first: int,
    a: int,
    second: int,
    b: int,
)
    requires
        0 <= a <= 0xffff_ffff,
        0 <= b <= 0xffff_ffff,
        first != 0 ==> before.mem.valid(first, 4),
        second != 0 ==> before.mem.valid(second, 4),
        words_put(before, after, first, a, second, b),
    ensures
        second != 0 ==> le_u32(after.mem@, second) == b,
        first != 0 && (second == 0 || first + 4 <= second || second + 4 <= first) ==> le_u32(
            after.mem@,
            first,
        ) == a,
        first == 0 && second == 0 ==> after.mem == before.mem,
{
    let mid = choose|mid: Mem| #[trigger]
        word_if(before.mem, mid, first, a) && word_if(mid, after.mem, second, b);
    if first != 0 {
        lemma_word_stored(before.mem, mid, first, a);
    }
    if second != 0 {
        lemma_word_stored(mid, after.mem, second, b);
    }
}

/// The bytes of a property and their number were put where they were asked for.
pub proof fn law_size_and_property(
    before: Environment,
    after: Environment,
    io_size: int,
    out: int,
    bytes: Seq<u8>,
)
    requires
        bytes.len() <= 0xffff_ffff,
        before.mem.valid(io_size, 4),
        before.mem.valid(out, bytes.len() as int),
        io_size + 4 <= out || out + bytes.len() <= io_size,
        size_and_property_put(before, after, io_size, out, bytes),
    ensures
        le_u32(after.mem@, io_size) == bytes.len(),
        forall|i: int| 0 <= i < bytes.len() ==> after.mem@[out + i] == #[trigger] bytes[i],
{
    let mid = choose|mid: Mem| #[trigger]
        mid.stored(before.mem, io_size, le_bytes(bytes.len() as int, 4)) && after.mem.stored(
            mid,
            out,
            bytes,
        );
    lemma_word_stored(before.mem, mid, io_size, bytes.len() as int);
    assert forall|i: int| 0 <= i < 4 implies after.mem@[io_size + i] == #[trigger] mid@[io_size
        + i] by {}
    assert(after.mem@[io_size + 0] == mid@[io_size + 0]);
    assert(after.mem@[io_size + 1] == mid@[io_size + 1]);
    assert(after.mem@[io_size + 2] == mid@[io_size + 2]);
    assert(after.mem@[io_size + 3] == mid@[io_size + 3]);
}

/// What is left to deliver of a stream is whole packets, and all that are there:
/// less than a packet more would be.
pub proof fn law_undelivered(stream: AudioFileStreamHostObject, size: int)
    requires
        size > 0,
        stream.bytes_delivered as int % size == 0,
        stream.bytes_delivered <= stream.buffer@.len(),
    ensures
        ({
            let n = undelivered(stream, size);
            &&& 0 <= n
            &&& n % size == 0
            &&& stream.bytes_delivered + n <= stream.buffer@.len() < stream.bytes_delivered + n
                + size
        }),
{
    let total = stream.buffer@.len() as int;
    let sent = stream.bytes_delivered as int;
    vstd::arithmetic::div_mod::lemma_fundamental_div_mod(total, size);
    vstd::arithmetic::div_mod::lemma_fundamental_div_mod(sent, size);
    vstd::arithmetic::div_mod::lemma_mod_bound(total, size);
    let q = total / size;
    let p = sent / size;
    assert(total - total % size == size * q);
    assert(sent == size * p);
    assert(size * q - size * p == (q - p) * size) by (nonlinear_arith);
    vstd::arithmetic::div_mod::lemma_mod_multiples_basic(q - p, size);
    assert(size * q >= size * p) by (nonlinear_arith)
        requires
            size * q + total % size >= size * p,
            total % size < size,
            size > 0,
    ;
    vstd::arithmetic::div_mod::lemma_mod_multiples_basic(0, size);
}

} // verus!

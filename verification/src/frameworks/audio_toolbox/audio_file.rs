//! `AudioFile.h` (Audio File Services)
//!
//! What an audio file holds is parsed elsewhere; here it is a description, a
//! few counts and the bytes of its packets.
use std::collections::HashMap;
use vstd::prelude::*;

use crate::environment::Environment;
use crate::frameworks;
use crate::heap::lemma_second_room;
use crate::libc::posix_io::bytes_from;
use crate::mem::{le_bytes, le_u32, lemma_le_bytes_len, GuestUSize, Mem, MutPtr, MutVoidPtr};
use crate::objc::GuestFunction;

verus! {

broadcast use vstd::std_specs::hash::group_hash_axioms;

pub type OSStatus = i32;

/// A parameter that must not be null is.
pub const paramErr: OSStatus = -50;

/// The end of the file was reached.
pub const eofErr: OSStatus = -39;

/// `!siz`
pub const kAudioFileBadPropertySizeError: OSStatus = 0x2173_697a;

/// `pty?`
pub const kAudioFileUnsupportedPropertyError: OSStatus = 0x7074_793f;

/// `typ?`
pub const kAudioFileUnsupportedFileTypeError: OSStatus = 0x7479_703f;

/// `wht?`
pub const kAudioFileUnspecifiedError: OSStatus = 0x7768_743f;

pub type AudioFilePermissions = i8;

pub const kAudioFileReadPermission: AudioFilePermissions = 1;

/// Usually a FourCC.
pub type AudioFileTypeID = u32;

/// `caff`
pub const kAudioFileCAFType: AudioFileTypeID = 0x6361_6666;

/// `AIFF`
pub const kAUdioFileAIFFType: AudioFileTypeID = 0x4149_4646;

/// Usually a FourCC.
pub type AudioFilePropertyID = u32;

/// `ffmt`
pub const kAudioFilePropertyFileFormat: AudioFilePropertyID = 0x6666_6d74;

/// `dfmt`
pub const kAudioFilePropertyDataFormat: AudioFilePropertyID = 0x6466_6d74;

/// `bcnt`
pub const kAudioFilePropertyAudioDataByteCount: AudioFilePropertyID = 0x6263_6e74;

/// `pcnt`
pub const kAudioFilePropertyAudioDataPacketCount: AudioFilePropertyID = 0x7063_6e74;

/// `pkub`
pub const kAudioFilePropertyPacketSizeUpperBound: AudioFilePropertyID = 0x706b_7562;

/// `mgic`
pub const kAudioFilePropertyMagicCookieData: AudioFilePropertyID = 0x6d67_6963;

/// `cmap`
pub const kAudioFilePropertyChannelLayout: AudioFilePropertyID = 0x636d_6170;

/// `edur`
pub const kAudioFilePropertyEstimatedDuration: AudioFilePropertyID = 0x6564_7572;

/// `pnfo`
pub const kAudioFilePropertyPacketTableInfo: AudioFilePropertyID = 0x706e_666f;

/// `redy`. A stream's other properties have the numbers of a file's.
pub const kAudioFileStreamProperty_ReadyToProducePackets: AudioFilePropertyID = 0x7265_6479;

/// `WAVE`
pub const WAVE: u32 = 0x5741_5645;

/// How the bytes of an audio file are to be read, as it lies in guest memory.
/// The sample rate is a bit pattern.
#[derive(Clone, Copy, Debug, PartialEq, Eq, Structural)]
pub struct AudioStreamBasicDescription {
    pub sample_rate: u64,
    pub format_id: u32,
    pub format_flags: u32,
    pub bytes_per_packet: u32,
    pub frames_per_packet: u32,
    pub bytes_per_frame: u32,
    pub channels_per_frame: u32,
    pub bits_per_channel: u32,
    pub reserved: u32,
}

/// The bytes that a description takes in guest memory.
pub const DESCRIPTION_SIZE: u32 = 40;

/// A parsed audio file.
pub struct AudioFile {
    pub description: AudioStreamBasicDescription,
    /// The bytes of all packets.
    pub data: Vec<u8>,
    pub packet_count: u64,
    pub packet_size: u32,
    pub packet_size_upper_bound: u32,
    /// In seconds, as a bit pattern.
    pub estimated_duration: u64,
}

/// Why an audio file could not be opened.
#[derive(Clone, Copy, Debug, PartialEq, Eq, Structural)]
pub enum AudioFileOpenError {
    FileReadError,
    FileDecodeError,
}

pub struct AudioFileHostObject {
    pub audio_file: AudioFile,
}

/// What a guest's handle of an audio file points at.
#[derive(Clone, Copy, Debug, PartialEq, Eq, Structural)]
pub struct OpaqueAudioFileID {
    pub _filler: u8,
}

pub type AudioFileID = MutPtr;

/// What a guest's handle of an audio file stream points at.
#[derive(Clone, Copy, Debug, PartialEq, Eq, Structural)]
pub struct OpaqueAudioFileStreamID {
    pub _filler: u8,
}

pub type AudioFileStreamID = MutPtr;

/// State of a stream. A file is parsed as a whole, so every byte that is handed
/// over is kept until the file can be parsed.
pub struct AudioFileStreamHostObject {
    pub client_data: MutVoidPtr,
    pub property_listener_proc: GuestFunction,
    pub packets_proc: GuestFunction,
    pub file_type_hint: AudioFileTypeID,
    /// All bytes seen so far.
    pub buffer: Vec<u8>,
    /// Set once `buffer` was parsed.
    pub parsed_audio_file: Option<AudioFile>,
    /// How many bytes of `buffer` were already reported as packets.
    pub bytes_delivered: usize,
}

pub struct State {
    pub audio_files: HashMap<AudioFileID, AudioFileHostObject>,
    pub audio_file_streams: HashMap<AudioFileStreamID, AudioFileStreamHostObject>,
}

impl Default for State {
    fn default() -> (r: State)
        ensures
            r.audio_files@ == Map::<AudioFileID, AudioFileHostObject>::empty(),
            r.audio_file_streams@ == Map::<AudioFileStreamID, AudioFileStreamHostObject>::empty(),
    {
        State {
            audio_files: HashMap::new(),
            audio_file_streams: HashMap::new(),
        }
    }
}

impl State {
    pub fn get(framework_state: &mut frameworks::State) -> (r: &mut State)
        ensures
            *r == old(framework_state).audio_toolbox.audio_file,
            *final(framework_state) == (frameworks::State {
                audio_toolbox: frameworks::audio_toolbox::State {
                    audio_file: *final(r),
                    ..old(framework_state).audio_toolbox
                },
                ..*old(framework_state)
            }),
    {
        &mut framework_state.audio_toolbox.audio_file
    }
}

/// The state of audio files.
pub open spec fn audio(env: Environment) -> State {
    env.framework_state.audio_toolbox.audio_file
}

/// A zero byte was put into a new chunk, which is a handle.
pub open spec fn handle_made(before: Mem, after: Mem, handle: u32) -> bool {
    &&& handle != 0
    &&& after.placed(before, handle, seq![0u8])
}

/// A handle of `file` was made.
pub open spec fn file_opened(
    before: Environment,
    after: Environment,
    file: AudioFile,
    handle: u32,
) -> bool {
    &&& after == before.with_mem(after.mem).with_audio_file(
        State { audio_files: audio(after).audio_files, ..audio(before) },
    )
    &&& handle_made(before.mem, after.mem, handle)
    &&& audio(after).audio_files@ == audio(before).audio_files@.insert(
        handle,
        AudioFileHostObject { audio_file: file },
    )
}

/// A word was stored in guest memory.
pub open spec fn word_put(before: Environment, after: Environment, ptr: int, value: int) -> bool {
    &&& after == before.with_mem(after.mem)
    &&& after.mem.stored(before.mem, ptr, le_bytes(value, 4))
}

/// A handle of `file` was made, and stored for the guest.
pub open spec fn file_given(
    before: Environment,
    after: Environment,
    file: AudioFile,
    out: int,
) -> bool {
    exists|opened: Environment, handle: u32| #[trigger]
        file_opened(before, opened, file, handle) && word_put(opened, after, out, handle as int)
}

/// Makes a handle of an audio file.
fn open_file(env: &mut Environment, file: AudioFile) -> (r: AudioFileID)
    requires
        old(env).wf(),
        old(env).mem.has_room(1),
    ensures
        final(env).wf(),
        file_opened(*old(env), *final(env), file, r),
        final(env).mem@.len() == old(env).mem@.len(),
{
    let filler: Vec<u8> = vec![0];
    assert(filler@ =~= seq![0u8]);
    let handle: u32 = env.mem.alloc_and_write(&filler);
    let _ = env.framework_state.audio_toolbox.audio_file.audio_files.insert(
        handle,
        AudioFileHostObject { audio_file: file },
    );
    handle
}

/// What `guest_audio_file_read_from_vec` does with what parsing gave: a handle
/// of the file, or the error.
pub fn guest_audio_file_read_from_vec(
    env: &mut Environment,
    parsed: Result<AudioFile, AudioFileOpenError>,
) -> (r: Result<AudioFileID, AudioFileOpenError>)
    requires
        old(env).wf(),
        parsed is Ok ==> old(env).mem.has_room(1),
    ensures
        final(env).wf(),
        match parsed {
            Ok(file) => (r matches Ok(handle) && file_opened(
                *old(env),
                *final(env),
                file,
                handle,
            )),
            Err(e) => r == Err::<u32, AudioFileOpenError>(e) && *final(env) == *old(env),
        },
        final(env).mem@.len() == old(env).mem@.len(),
{
    match parsed {
        Ok(file) => Ok(open_file(env, file)),
        Err(e) => Err(e),
    }
}

/// The status of an audio file that could not be opened.
pub open spec fn open_status(e: AudioFileOpenError) -> OSStatus {
    match e {
        AudioFileOpenError::FileDecodeError => kAudioFileUnsupportedFileTypeError,
        _ => kAudioFileUnspecifiedError,
    }
}

/// A file type that is known may be given as a hint, which is then ignored.
pub open spec fn hint_known(hint: AudioFileTypeID) -> bool {
    hint == 0 || hint == kAudioFileCAFType || hint == kAUdioFileAIFFType
}

/// `OSStatus AudioFileOpenURL(...);`, with what opening the file at the URL
/// gave.
pub fn AudioFileOpenURL(
    env: &mut Environment,
    in_file_ref: u32,
    in_permissions: AudioFilePermissions,
    in_file_type_hint: AudioFileTypeID,
    out_audio_file: MutPtr,
    opened: Result<AudioFile, AudioFileOpenError>,
) -> (r: OSStatus)
    requires
        old(env).wf(),
        in_file_ref != 0 ==> {
            &&& in_permissions == kAudioFileReadPermission
            &&& hint_known(in_file_type_hint)
            &&& opened is Ok ==> old(env).mem.valid(out_audio_file as int, 4)
                && old(env).mem.has_room(1)
        },
    ensures
        final(env).wf(),
        if in_file_ref == 0 {
            r == paramErr && *final(env) == *old(env)
        } else {
            match opened {
                Ok(file) => r == 0 && file_given(
                    *old(env),
                    *final(env),
                    file,
                    out_audio_file as int,
                ),
                Err(e) => r == open_status(e) && *final(env) == *old(env),
            }
        },
{
    if in_file_ref == 0 {
        return paramErr;
    }
    match opened {
        Ok(file) => {
            let handle: u32 = open_file(env, file);
            assert(file_opened(*old(env), *env, file, handle));
            env.mem.write_u32(out_audio_file, handle);
            0
        },
        Err(e) => match e {
            AudioFileOpenError::FileDecodeError => kAudioFileUnsupportedFileTypeError,
            _ => kAudioFileUnspecifiedError,
        },
    }
}

/// A file that the guest reads into memory: how much, where to, and where it
/// tells how much it was.
#[derive(Clone, Copy, Debug, PartialEq, Eq, Structural)]
pub struct CallbackRead {
    pub size: u32,
    pub data_ptr: MutPtr,
    pub bytes_read_ptr: MutPtr,
}

/// Memory was made for a file of `size` bytes that the guest reads.
pub open spec fn callback_read_made(
    before: Environment,
    after: Environment,
    size: int,
    read: CallbackRead,
) -> bool {
    &&& read.size == size
    &&& after == before.with_mem(after.mem)
    &&& exists|mid: Mem| #[trigger]
        mid.taken(before.mem, read.data_ptr, size) && after.mem.placed(
            mid,
            read.bytes_read_ptr,
            le_bytes(0, 4),
        )
}

/// The start of `AudioFileOpenWithCallbacks`, once the guest told the size of
/// the file. The guest is then to read the whole file, from position zero on.
pub fn AudioFileOpenWithCallbacks(env: &mut Environment, size: i64) -> (r: CallbackRead)
    requires
        old(env).wf(),
        0 < size <= u32::MAX,
        old(env).mem.has_rooms(size as int, 4),
    ensures
        final(env).wf(),
        callback_read_made(*old(env), *final(env), size as int, r),
        final(env).mem.valid(r.data_ptr as int, size as int),
        final(env).mem.valid(r.bytes_read_ptr as int, 4),
{
    let data_ptr: u32 = env.mem.allocate(size as u32);
    let ghost mid = env.mem;
    proof {
        lemma_second_room(old(env).mem, mid, data_ptr, size as int, 4);
    }
    let zero: Vec<u8> = vec![0, 0, 0, 0];
    proof {
        crate::mem::lemma_le_bytes_4(0);
        assert(zero@ =~= le_bytes(0, 4));
    }
    let bytes_read_ptr: u32 = env.mem.alloc_and_write(&zero);
    let read: CallbackRead = CallbackRead { size: size as u32, data_ptr, bytes_read_ptr };
    assert(mid.taken(old(env).mem, read.data_ptr, size as int));
    assert(env.mem.placed(mid, read.bytes_read_ptr, le_bytes(0, 4)));
    read
}

/// What the guest read, or the status with which it failed.
pub fn callback_read_bytes(env: &Environment, read: &CallbackRead, status: OSStatus) -> (r: Result<
    Vec<u8>,
    OSStatus,
>)
    requires
        env.wf(),
        status == 0 ==> {
            &&& env.mem.valid(read.bytes_read_ptr as int, 4)
            &&& le_u32(env.mem@, read.bytes_read_ptr as int) == read.size
            &&& env.mem.valid(read.data_ptr as int, read.size as int)
            &&& read.size > 0
        },
    ensures
        if status != 0 {
            r == Err::<Vec<u8>, OSStatus>(status)
        } else {
            r matches Ok(bytes) && bytes@ == env.mem@.subrange(
                read.data_ptr as int,
                read.data_ptr + read.size,
            )
        },
{
    if status != 0 {
        return Err(status);
    }
    Ok(env.mem.bytes_at(read.data_ptr, read.size))
}

/// The end of `AudioFileOpenWithCallbacks`, with what parsing the bytes gave.
pub fn open_with_callbacks_finish(
    env: &mut Environment,
    parsed: Result<AudioFile, AudioFileOpenError>,
    out_audio_file: MutPtr,
) -> (r: OSStatus)
    requires
        old(env).wf(),
        parsed is Ok ==> old(env).mem.valid(out_audio_file as int, 4) && old(env).mem.has_room(1),
    ensures
        final(env).wf(),
        match parsed {
            Ok(file) => r == 0 && file_given(*old(env), *final(env), file, out_audio_file as int),
            Err(_) => r == kAudioFileUnsupportedFileTypeError && *final(env) == *old(env),
        },
{
    match guest_audio_file_read_from_vec(env, parsed) {
        Ok(handle) => {
            env.mem.write_u32(out_audio_file, handle);
            0
        },
        Err(_) => kAudioFileUnsupportedFileTypeError,
    }
}

/// The property is one that has a size.
pub open spec fn property_known(property: AudioFilePropertyID) -> bool {
    ||| property == kAudioFilePropertyFileFormat
    ||| property == kAudioFilePropertyDataFormat
    ||| property == kAudioFilePropertyAudioDataByteCount
    ||| property == kAudioFilePropertyAudioDataPacketCount
    ||| property == kAudioFilePropertyPacketSizeUpperBound
    ||| property == kAudioFilePropertyEstimatedDuration
    ||| property == kAudioFilePropertyPacketTableInfo
}

/// The size of a property.
pub open spec fn size_of_property(property: AudioFilePropertyID) -> int {
    if property == kAudioFilePropertyFileFormat || property
        == kAudioFilePropertyPacketSizeUpperBound {
        4
    } else if property == kAudioFilePropertyDataFormat {
        40
    } else if property == kAudioFilePropertyPacketTableInfo {
        16
    } else {
        8
    }
}

pub fn property_size(property_id: AudioFilePropertyID) -> (r: GuestUSize)
    requires
        property_known(property_id),
    ensures
        r == size_of_property(property_id),
{
    match property_id {
        kAudioFilePropertyFileFormat => 4,
        kAudioFilePropertyDataFormat => DESCRIPTION_SIZE,
        kAudioFilePropertyAudioDataByteCount => 8,
        kAudioFilePropertyAudioDataPacketCount => 8,
        kAudioFilePropertyPacketSizeUpperBound => 4,
        kAudioFilePropertyEstimatedDuration => 8,
        _ => 16,
    }
}

/// Two words were stored, one after the other, each where there is a place for
/// it.
pub open spec fn words_put(
    before: Environment,
    after: Environment,
    first: int,
    a: int,
    second: int,
    b: int,
) -> bool {
    &&& after == before.with_mem(after.mem)
    &&& exists|mid: Mem| #[trigger]
        word_if(before.mem, mid, first, a) && word_if(mid, after.mem, second, b)
}

/// A word was stored, where there is a place for it.
pub open spec fn word_if(before: Mem, after: Mem, ptr: int, value: int) -> bool {
    if ptr == 0 {
        after == before
    } else {
        after.stored(before, ptr, le_bytes(value, 4))
    }
}

fn put_size_and_writable(env: &mut Environment, out_size: MutPtr, size: u32, is_writable: MutPtr)
    requires
        old(env).wf(),
        out_size != 0 ==> old(env).mem.valid(out_size as int, 4),
        is_writable != 0 ==> old(env).mem.valid(is_writable as int, 4),
    ensures
        final(env).wf(),
        words_put(
            *old(env),
            *final(env),
            out_size as int,
            size as int,
            is_writable as int,
            0,
        ),
{
    if out_size != 0 {
        env.mem.write_u32(out_size, size);
    }
    let ghost mid = env.mem;
    assert(word_if(old(env).mem, mid, out_size as int, size as int));
    if is_writable != 0 {
        env.mem.write_u32(is_writable, 0);
    }
}

/// `OSStatus AudioFileGetPropertyInfo(...);`
pub fn AudioFileGetPropertyInfo(
    env: &mut Environment,
    in_audio_file: AudioFileID,
    in_property_id: AudioFilePropertyID,
    out_data_size: MutPtr,
    is_writable: MutPtr,
) -> (r: OSStatus)
    requires
        old(env).wf(),
        out_data_size != 0 ==> old(env).mem.valid(out_data_size as int, 4),
        is_writable != 0 ==> old(env).mem.valid(is_writable as int, 4),
        in_audio_file != 0 && out_data_size != 0 && in_property_id
            != kAudioFilePropertyMagicCookieData && in_property_id
            != kAudioFilePropertyChannelLayout ==> property_known(in_property_id),
    ensures
        final(env).wf(),
        if in_audio_file == 0 {
            r == paramErr && *final(env) == *old(env)
        } else if in_property_id == kAudioFilePropertyMagicCookieData || in_property_id
            == kAudioFilePropertyChannelLayout {
            &&& r == kAudioFileUnsupportedPropertyError
            &&& words_put(
                *old(env),
                *final(env),
                out_data_size as int,
                0,
                is_writable as int,
                0,
            )
        } else {
            &&& r == 0
            &&& words_put(
                *old(env),
                *final(env),
                out_data_size as int,
                size_of_property(in_property_id),
                is_writable as int,
                0,
            )
        },
{
    if in_audio_file == 0 {
        return paramErr;
    }
    if in_property_id == kAudioFilePropertyMagicCookieData || in_property_id
        == kAudioFilePropertyChannelLayout {
        put_size_and_writable(env, out_data_size, 0, is_writable);
        return kAudioFileUnsupportedPropertyError;
    }
    if out_data_size != 0 {
        let size: u32 = property_size(in_property_id);
        put_size_and_writable(env, out_data_size, size, is_writable);
    } else {
        put_size_and_writable(env, 0, 0, is_writable);
        proof {
            let mid = choose|mid: Mem| #[trigger]
                word_if(old(env).mem, mid, 0, 0) && word_if(mid, env.mem, is_writable as int, 0);
            assert(word_if(old(env).mem, mid, 0, size_of_property(in_property_id)));
        }
    }
    0
}

/// A description as it lies in guest memory.
pub open spec fn description_bytes(d: AudioStreamBasicDescription) -> Seq<u8> {
    le_bytes(d.sample_rate as int, 8) + le_bytes(d.format_id as int, 4) + le_bytes(
        d.format_flags as int,
        4,
    ) + le_bytes(d.bytes_per_packet as int, 4) + le_bytes(d.frames_per_packet as int, 4) + le_bytes(
        d.bytes_per_frame as int,
        4,
    ) + le_bytes(d.channels_per_frame as int, 4) + le_bytes(d.bits_per_channel as int, 4)
        + le_bytes(d.reserved as int, 4)
}

fn push_u32(out: &mut Vec<u8>, v: u32)
    ensures
        final(out)@ == old(out)@ + le_bytes(v as int, 4),
{
    out.push((v % 0x100) as u8);
    out.push((v / 0x100 % 0x100) as u8);
    out.push((v / 0x1_0000 % 0x100) as u8);
    out.push((v / 0x100_0000) as u8);
    proof {
        crate::mem::lemma_le_bytes_4(v as int);
        assert(out@ =~= old(out)@ + le_bytes(v as int, 4));
    }
}

fn push_u64(out: &mut Vec<u8>, v: u64)
    ensures
        final(out)@ == old(out)@ + le_bytes(v as int, 8),
{
    push_u32(out, (v % 0x1_0000_0000) as u32);
    push_u32(out, (v / 0x1_0000_0000) as u32);
    proof {
        crate::mem::lemma_le_bytes_8(v as int);
        assert(out@ =~= old(out)@ + le_bytes(v as int, 8));
    }
}

fn description_to_bytes(d: &AudioStreamBasicDescription) -> (r: Vec<u8>)
    ensures
        r@ == description_bytes(*d),
        r@.len() == 40,
{
    let mut out: Vec<u8> = Vec::new();
    push_u64(&mut out, d.sample_rate);
    push_u32(&mut out, d.format_id);
    push_u32(&mut out, d.format_flags);
    push_u32(&mut out, d.bytes_per_packet);
    push_u32(&mut out, d.frames_per_packet);
    push_u32(&mut out, d.bytes_per_frame);
    push_u32(&mut out, d.channels_per_frame);
    push_u32(&mut out, d.bits_per_channel);
    push_u32(&mut out, d.reserved);
    proof {
        lemma_le_bytes_len(d.sample_rate as int, 8);
        lemma_le_bytes_len(d.format_id as int, 4);
        lemma_le_bytes_len(d.format_flags as int, 4);
        lemma_le_bytes_len(d.bytes_per_packet as int, 4);
        lemma_le_bytes_len(d.frames_per_packet as int, 4);
        lemma_le_bytes_len(d.bytes_per_frame as int, 4);
        lemma_le_bytes_len(d.channels_per_frame as int, 4);
        lemma_le_bytes_len(d.bits_per_channel as int, 4);
        lemma_le_bytes_len(d.reserved as int, 4);
        assert(out@ =~= description_bytes(*d));
    }
    out
}

/// `s` starts with `prefix`.
pub open spec fn bytes_start_with(s: Seq<u8>, prefix: Seq<u8>) -> bool {
    s.len() >= prefix.len() && s.take(prefix.len() as int) == prefix
}

/// `com.ea.mirrorsedge.bv`
pub open spec fn mirrors_edge_bv() -> Seq<u8> {
    mirrors_edge() + seq![0x62u8, 0x76u8]
}

/// `com.ea.mirrorsedge.inc`
pub open spec fn mirrors_edge_inc() -> Seq<u8> {
    mirrors_edge() + seq![0x69u8, 0x6eu8, 0x63u8]
}

/// `com.ea.mirrorsedge.`
pub open spec fn mirrors_edge() -> Seq<u8> {
    seq![
        0x63u8,
        0x6fu8,
        0x6du8,
        0x2eu8,
        0x65u8,
        0x61u8,
        0x2eu8,
        0x6du8,
        0x69u8,
        0x72u8,
        0x72u8,
        0x6fu8,
        0x72u8,
        0x73u8,
        0x65u8,
        0x64u8,
        0x67u8,
        0x65u8,
        0x2eu8,
    ]
}

/// The application is one that is told the format of its files.
pub open spec fn file_format_known(bundle_identifier: Seq<u8>) -> bool {
    bytes_start_with(bundle_identifier, mirrors_edge_bv()) || bytes_start_with(
        bundle_identifier,
        mirrors_edge_inc(),
    )
}

/// The bytes of a property of an audio file, or `None` where it is not
/// supported.
pub open spec fn property_bytes(file: AudioFile, property: AudioFilePropertyID) -> Option<Seq<u8>> {
    if property == kAudioFilePropertyFileFormat {
        Some(le_bytes(WAVE as int, 4))
    } else if property == kAudioFilePropertyDataFormat {
        Some(description_bytes(file.description))
    } else if property == kAudioFilePropertyAudioDataByteCount {
        Some(le_bytes(file.data@.len() as int, 8))
    } else if property == kAudioFilePropertyAudioDataPacketCount {
        Some(le_bytes(file.packet_count as int, 8))
    } else if property == kAudioFilePropertyPacketSizeUpperBound {
        Some(le_bytes(file.packet_size_upper_bound as int, 4))
    } else if property == kAudioFilePropertyEstimatedDuration {
        Some(le_bytes(file.estimated_duration as int, 8))
    } else {
        None
    }
}

fn property_to_bytes(file: &AudioFile, property: AudioFilePropertyID) -> (r: Option<Vec<u8>>)
    requires
        property_known(property),
        file.data@.len() <= u64::MAX,
    ensures
        match property_bytes(*file, property) {
            Some(bytes) => (r matches Some(b) && b@ == bytes && b@.len() == size_of_property(
                property,
            )),
            None => r is None,
        },
{
    let mut out: Vec<u8> = Vec::new();
    assert(forall|s: Seq<u8>| Seq::<u8>::empty() + s =~= s);
    match property {
        kAudioFilePropertyFileFormat => {
            push_u32(&mut out, WAVE);
            proof {
                lemma_le_bytes_len(WAVE as int, 4);
            }
        },
        kAudioFilePropertyDataFormat => {
            out = description_to_bytes(&file.description);
        },
        kAudioFilePropertyAudioDataByteCount => {
            push_u64(&mut out, file.data.len() as u64);
            proof {
                lemma_le_bytes_len(file.data@.len() as int, 8);
            }
        },
        kAudioFilePropertyAudioDataPacketCount => {
            push_u64(&mut out, file.packet_count);
            proof {
                lemma_le_bytes_len(file.packet_count as int, 8);
            }
        },
        kAudioFilePropertyPacketSizeUpperBound => {
            push_u32(&mut out, file.packet_size_upper_bound);
            proof {
                lemma_le_bytes_len(file.packet_size_upper_bound as int, 4);
            }
        },
        kAudioFilePropertyEstimatedDuration => {
            push_u64(&mut out, file.estimated_duration);
            proof {
                lemma_le_bytes_len(file.estimated_duration as int, 8);
            }
        },
        _ => {
            return None;
        },
    }
    Some(out)
}

/// What `AudioFileGetProperty` does.
pub open spec fn get_property_done(
    before: Environment,
    after: Environment,
    file_id: AudioFileID,
    property: AudioFilePropertyID,
    io_data_size: int,
    out: int,
    r: OSStatus,
) -> bool {
    if file_id == 0 {
        r == paramErr && after == before
    } else if le_u32(before.mem@, io_data_size) != size_of_property(property) {
        r == kAudioFileBadPropertySizeError && after == before
    } else {
        match property_bytes(audio(before).audio_files@[file_id].audio_file, property) {
            None => r == kAudioFileUnsupportedPropertyError && after == before,
            Some(bytes) => {
                &&& r == 0
                &&& after == before.with_mem(after.mem)
                &&& after.mem.stored(before.mem, out, bytes)
            },
        }
    }
}

/// `OSStatus AudioFileGetProperty(...);`
pub fn AudioFileGetProperty(
    env: &mut Environment,
    in_audio_file: AudioFileID,
    in_property_id: AudioFilePropertyID,
    io_data_size: MutPtr,
    out_property_data: MutVoidPtr,
) -> (r: OSStatus)
    requires
        old(env).wf(),
        in_audio_file != 0 ==> {
            &&& property_known(in_property_id)
            &&& old(env).mem.valid(io_data_size as int, 4)
            &&& le_u32(old(env).mem@, io_data_size as int) == size_of_property(in_property_id) ==> {
                &&& audio(*old(env)).audio_files@.contains_key(in_audio_file)
                &&& audio(*old(env)).audio_files@[in_audio_file].audio_file.data@.len() <= u64::MAX
                &&& in_property_id == kAudioFilePropertyFileFormat ==> file_format_known(
                    old(env).bundle.bundle_identifier@,
                )
                &&& in_property_id != kAudioFilePropertyPacketTableInfo ==> old(env).mem.valid(
                    out_property_data as int,
                    size_of_property(in_property_id),
                )
            }
        },
    ensures
        final(env).wf(),
        get_property_done(
            *old(env),
            *final(env),
            in_audio_file,
            in_property_id,
            io_data_size as int,
            out_property_data as int,
            r,
        ),
{
    if in_audio_file == 0 {
        return paramErr;
    }
    let required_size: u32 = property_size(in_property_id);
    if env.mem.read_u32(io_data_size) != required_size {
        return kAudioFileBadPropertySizeError;
    }
    let bytes: Option<Vec<u8>> = match env.framework_state.audio_toolbox.audio_file.audio_files.get(
        &in_audio_file,
    ) {
        Some(host_object) => property_to_bytes(&host_object.audio_file, in_property_id),
        None => None,
    };
    match bytes {
        Some(b) => {
            env.mem.write_bytes(out_property_data, &b);
            0
        },
        None => kAudioFileUnsupportedPropertyError,
    }
}

/// The bytes of a file from `start` on, up to `n` of them.
pub open spec fn audio_bytes(data: Seq<u8>, start: int, n: int) -> Seq<u8> {
    if start >= data.len() {
        Seq::empty()
    } else if start + n <= data.len() {
        data.subrange(start, start + n)
    } else {
        data.subrange(start, data.len() as int)
    }
}

impl AudioFile {
    /// The bytes from `start` on, up to `n` of them.
    pub fn read_bytes(&self, start: u64, n: u32) -> (r: Vec<u8>)
        requires
            self.data@.len() <= u64::MAX,
        ensures
            r@ == audio_bytes(self.data@, start as int, n as int),
            r@.len() <= n,
    {
        let mut r: Vec<u8> = Vec::new();
        if start >= self.data.len() as u64 {
            assert(r@ =~= Seq::empty());
            return r;
        }
        let total: usize = self.data.len();
        let from: usize = start as usize;
        let left: usize = total - from;
        let count: usize = if (n as u64) < left as u64 {
            n as usize
        } else {
            left
        };
        let mut i: usize = 0;
        while i < count
            invariant
                i <= count,
                from + count <= total == self.data@.len(),
                r@ =~= self.data@.subrange(from as int, from + i),
            decreases count - i,
        {
            r.push(self.data[from + i]);
            i = i + 1;
        }
        r
    }
}

/// What `AudioFileReadBytes` does.
pub open spec fn read_bytes_done(
    before: Environment,
    after: Environment,
    file_id: AudioFileID,
    start: int,
    io_num_bytes: int,
    out_buffer: int,
    r: OSStatus,
) -> bool {
    let n = le_u32(before.mem@, io_num_bytes);
    let bytes = audio_bytes(audio(before).audio_files@[file_id].audio_file.data@, start, n);
    if file_id == 0 {
        r == paramErr && after == before
    } else {
        &&& after == before.with_mem(after.mem)
        &&& bytes_and_count_put(before.mem, after.mem, out_buffer, bytes, io_num_bytes)
        &&& r == if bytes.len() < n {
            eofErr
        } else {
            0
        }
    }
}

/// Bytes were stored, and then how many they are.
pub open spec fn bytes_and_count_put(
    before: Mem,
    after: Mem,
    buffer: int,
    bytes: Seq<u8>,
    count: int,
) -> bool {
    exists|mid: Mem| #[trigger]
        mid.stored(before, buffer, bytes) && after.stored(
            mid,
            count,
            le_bytes(bytes.len() as int, 4),
        )
}

/// The file is known, and what a read looks at is guest memory.
pub open spec fn read_ready(
    env: Environment,
    file_id: AudioFileID,
    io_num_bytes: int,
    n: int,
    out_buffer: int,
) -> bool {
    &&& env.mem.valid(io_num_bytes, 4)
    &&& audio(env).audio_files@.contains_key(file_id)
    &&& audio(env).audio_files@[file_id].audio_file.data@.len() <= u64::MAX
    &&& n > 0 ==> env.mem.valid(out_buffer, n)
}

/// `OSStatus AudioFileReadBytes(...);`
pub fn AudioFileReadBytes(
    env: &mut Environment,
    in_audio_file: AudioFileID,
    _in_use_cache: bool,
    in_starting_byte: i64,
    io_num_bytes: MutPtr,
    out_buffer: MutVoidPtr,
) -> (r: OSStatus)
    requires
        old(env).wf(),
        in_audio_file != 0 ==> in_starting_byte >= 0 && old(env).mem.valid(io_num_bytes as int, 4)
            && read_ready(
            *old(env),
            in_audio_file,
            io_num_bytes as int,
            le_u32(old(env).mem@, io_num_bytes as int),
            out_buffer as int,
        ),
    ensures
        final(env).wf(),
        final(env).mem@.len() == old(env).mem@.len(),
        read_bytes_done(
            *old(env),
            *final(env),
            in_audio_file,
            in_starting_byte as int,
            io_num_bytes as int,
            out_buffer as int,
            r,
        ),
{
    if in_audio_file == 0 {
        return paramErr;
    }
    let bytes_to_read: u32 = env.mem.read_u32(io_num_bytes);
    let bytes: Vec<u8> = match env.framework_state.audio_toolbox.audio_file.audio_files.get(
        &in_audio_file,
    ) {
        Some(host_object) => host_object.audio_file.read_bytes(
            in_starting_byte as u64,
            bytes_to_read,
        ),
        None => Vec::new(),
    };
    let bytes_read: u32 = bytes.len() as u32;
    env.mem.write_bytes(out_buffer, &bytes);
    let ghost mid = env.mem;
    assert(mid.stored(old(env).mem, out_buffer as int, bytes@));
    env.mem.write_u32(io_num_bytes, bytes_read);
    if bytes_read < bytes_to_read {
        eofErr
    } else {
        0
    }
}

/// What `AudioFileReadPackets` does: a read of whole packets, of which the
/// number of bytes and of packets are stored.
pub open spec fn read_packets_done(
    before: Environment,
    after: Environment,
    file_id: AudioFileID,
    out_num_bytes: int,
    start: int,
    io_num_packets: int,
    out_buffer: int,
    r: OSStatus,
) -> bool {
    let packet_size = audio(before).audio_files@[file_id].audio_file.packet_size;
    let packets = le_u32(before.mem@, io_num_packets);
    if file_id == 0 {
        r == paramErr && after == before
    } else {
        exists|asked: Environment, read: Environment|
            {
                &&& #[trigger] word_put(before, asked, out_num_bytes, packets * packet_size)
                &&& #[trigger] read_bytes_done(
                    asked,
                    read,
                    file_id,
                    packet_size * start,
                    out_num_bytes,
                    out_buffer,
                    r,
                )
                &&& word_put(
                    read,
                    after,
                    io_num_packets,
                    le_u32(read.mem@, out_num_bytes) / packet_size as int,
                )
            }
    }
}

/// What a read of packets looks at is guest memory, and its sizes fit.
pub open spec fn read_packets_ready(
    env: Environment,
    file_id: AudioFileID,
    out_num_bytes: int,
    start: int,
    io_num_packets: int,
    out_buffer: int,
) -> bool {
    let packet_size = audio(env).audio_files@[file_id].audio_file.packet_size;
    let n = le_u32(env.mem@, io_num_packets) * packet_size;
    &&& env.mem.valid(io_num_packets, 4)
    &&& packet_size > 0
    &&& start >= 0
    &&& packet_size * start <= i64::MAX
    &&& n <= u32::MAX
    &&& read_ready(env, file_id, out_num_bytes, n, out_buffer)
}

/// `OSStatus AudioFileReadPackets(...);`, of packets of one size.
pub fn AudioFileReadPackets(
    env: &mut Environment,
    in_audio_file: AudioFileID,
    in_use_cache: bool,
    out_num_bytes: MutPtr,
    _out_packet_descriptions: MutVoidPtr,
    in_starting_packet: i64,
    io_num_packets: MutPtr,
    out_buffer: MutVoidPtr,
) -> (r: OSStatus)
    requires
        old(env).wf(),
        in_audio_file != 0 ==> read_packets_ready(
            *old(env),
            in_audio_file,
            out_num_bytes as int,
            in_starting_packet as int,
            io_num_packets as int,
            out_buffer as int,
        ),
    ensures
        final(env).wf(),
        read_packets_done(
            *old(env),
            *final(env),
            in_audio_file,
            out_num_bytes as int,
            in_starting_packet as int,
            io_num_packets as int,
            out_buffer as int,
            r,
        ),
{
    if in_audio_file == 0 {
        return paramErr;
    }
    let packet_size: u32 = match env.framework_state.audio_toolbox.audio_file.audio_files.get(
        &in_audio_file,
    ) {
        Some(host_object) => host_object.audio_file.packet_size,
        None => 1,
    };
    let packets_to_read: u32 = env.mem.read_u32(io_num_packets);
    assert(packet_size * in_starting_packet >= 0) by (nonlinear_arith)
        requires
            packet_size > 0,
            in_starting_packet >= 0,
    ;
    let starting_byte: i64 = packet_size as i64 * in_starting_packet;
    let bytes_to_read: u32 = packets_to_read * packet_size;
    env.mem.write_u32(out_num_bytes, bytes_to_read);
    let ghost asked = *env;
    proof {
        crate::mem::law_store_load_u32(old(env).mem@, out_num_bytes as int, bytes_to_read);
        assert(word_put(
            *old(env),
            asked,
            out_num_bytes as int,
            packets_to_read * packet_size,
        ));
    }
    let res: i32 = AudioFileReadBytes(
        env,
        in_audio_file,
        in_use_cache,
        starting_byte,
        out_num_bytes,
        out_buffer,
    );
    let ghost read = *env;
    assert(read_bytes_done(
        asked,
        read,
        in_audio_file,
        packet_size * in_starting_packet,
        out_num_bytes as int,
        out_buffer as int,
        res,
    ));
    let bytes_read: u32 = env.mem.read_u32(out_num_bytes);
    env.mem.write_u32(io_num_packets, bytes_read / packet_size);
    res
}

/// `OSStatus AudioFileReadPacketData(...);`: like `AudioFileReadPackets`.
pub fn AudioFileReadPacketData(
    env: &mut Environment,
    in_audio_file: AudioFileID,
    in_use_cache: bool,
    out_num_bytes: MutPtr,
    out_packet_descriptions: MutVoidPtr,
    in_starting_packet: i64,
    io_num_packets: MutPtr,
    out_buffer: MutVoidPtr,
) -> (r: OSStatus)
    requires
        old(env).wf(),
        in_audio_file != 0 ==> read_packets_ready(
            *old(env),
            in_audio_file,
            out_num_bytes as int,
            in_starting_packet as int,
            io_num_packets as int,
            out_buffer as int,
        ),
    ensures
        final(env).wf(),
        read_packets_done(
            *old(env),
            *final(env),
            in_audio_file,
            out_num_bytes as int,
            in_starting_packet as int,
            io_num_packets as int,
            out_buffer as int,
            r,
        ),
{
    AudioFileReadPackets(
        env,
        in_audio_file,
        in_use_cache,
        out_num_bytes,
        out_packet_descriptions,
        in_starting_packet,
        io_num_packets,
        out_buffer,
    )
}

/// `OSStatus AudioFileClose(AudioFileID in_audio_file);`
pub fn AudioFileClose(env: &mut Environment, in_audio_file: AudioFileID) -> (r: OSStatus)
    requires
        old(env).wf(),
    ensures
        final(env).wf(),
        if in_audio_file == 0 {
            r == paramErr && *final(env) == *old(env)
        } else if !audio(*old(env)).audio_files@.contains_key(in_audio_file) {
            r == kAudioFileUnspecifiedError && *final(env) == *old(env)
        } else {
            &&& r == 0
            &&& *final(env) == old(env).with_mem(final(env).mem).with_audio_file(
                (State {
                    audio_files: audio(*final(env)).audio_files,
                    ..audio(*old(env))
                }),
            )
            &&& audio(*final(env)).audio_files@ == audio(*old(env)).audio_files@.remove(
                in_audio_file,
            )
            &&& final(env).mem.released(old(env).mem, in_audio_file)
        },
{
    if in_audio_file == 0 {
        return paramErr;
    }
    if !env.framework_state.audio_toolbox.audio_file.audio_files.contains_key(&in_audio_file) {
        return kAudioFileUnspecifiedError;
    }
    let _ = env.framework_state.audio_toolbox.audio_file.audio_files.remove(&in_audio_file);
    assert(audio(*env).audio_files@ =~= audio(*old(env)).audio_files@.remove(in_audio_file));
    env.mem.free(in_audio_file);
    0
}

/// A stream was made.
pub open spec fn stream_opened(
    before: Environment,
    after: Environment,
    stream: AudioFileStreamHostObject,
    handle: u32,
) -> bool {
    &&& after == before.with_mem(after.mem).with_audio_file(
        State { audio_file_streams: audio(after).audio_file_streams, ..audio(before) },
    )
    &&& handle_made(before.mem, after.mem, handle)
    &&& audio(after).audio_file_streams@ == audio(before).audio_file_streams@.insert(
        handle,
        stream,
    )
}

/// `OSStatus AudioFileStreamOpen(...);`
pub fn AudioFileStreamOpen(
    env: &mut Environment,
    in_client_data: MutVoidPtr,
    in_property_listener_proc: GuestFunction,
    in_packets_proc: GuestFunction,
    in_file_type_hint: AudioFileTypeID,
    out_audio_file_stream: MutPtr,
) -> (r: OSStatus)
    requires
        old(env).wf(),
        old(env).mem.has_room(1),
        old(env).mem.valid(out_audio_file_stream as int, 4),
    ensures
        final(env).wf(),
        r == 0,
        exists|opened: Environment, stream: AudioFileStreamHostObject, handle: u32|
            {
                &&& #[trigger] stream_opened(*old(env), opened, stream, handle)
                &&& word_put(opened, *final(env), out_audio_file_stream as int, handle as int)
                &&& stream.client_data == in_client_data
                &&& stream.property_listener_proc == in_property_listener_proc
                &&& stream.packets_proc == in_packets_proc
                &&& stream.file_type_hint == in_file_type_hint
                &&& stream.buffer@ == Seq::<u8>::empty()
                &&& stream.parsed_audio_file is None
                &&& stream.bytes_delivered == 0
            },
{
    let buffer: Vec<u8> = Vec::new();
    assert(buffer@ =~= Seq::empty());
    let stream: AudioFileStreamHostObject = AudioFileStreamHostObject {
        client_data: in_client_data,
        property_listener_proc: in_property_listener_proc,
        packets_proc: in_packets_proc,
        file_type_hint: in_file_type_hint,
        buffer,
        parsed_audio_file: None,
        bytes_delivered: 0,
    };
    let ghost host = stream;
    let filler: Vec<u8> = vec![0];
    assert(filler@ =~= seq![0u8]);
    let handle: u32 = env.mem.alloc_and_write(&filler);
    let _ = env.framework_state.audio_toolbox.audio_file.audio_file_streams.insert(
        handle,
        stream,
    );
    assert(stream_opened(*old(env), *env, host, handle));
    env.mem.write_u32(out_audio_file_stream, handle);
    0
}

/// The stream `id` became `stream`.
pub open spec fn stream_set(
    before: Environment,
    after: Environment,
    id: AudioFileStreamID,
    stream: AudioFileStreamHostObject,
) -> bool {
    &&& after == before.with_audio_file(
        State { audio_file_streams: audio(after).audio_file_streams, ..audio(before) },
    )
    &&& audio(after).audio_file_streams@ == audio(before).audio_file_streams@.insert(id, stream)
}

/// What a stream asks for once it was given more bytes.
pub enum ParseStep {
    /// The call is over, with this status.
    Done(OSStatus),
    /// These bytes are to be parsed.
    Parse(Vec<u8>),
    /// The file was parsed before: packets are to be delivered.
    Deliver,
}

/// A stream kept `bytes` with those that came before. Until its file was parsed
/// all of them are to be parsed.
pub open spec fn bytes_buffered(
    before: Environment,
    after: Environment,
    id: AudioFileStreamID,
    bytes: Seq<u8>,
    r: ParseStep,
) -> bool {
    let b = audio(before).audio_file_streams@[id];
    let a = audio(after).audio_file_streams@[id];
    &&& stream_set(before, after, id, a)
    &&& a == (AudioFileStreamHostObject { buffer: a.buffer, ..b })
    &&& a.buffer@ == b.buffer@ + bytes
    &&& if b.parsed_audio_file is Some {
        r is Deliver
    } else {
        r matches ParseStep::Parse(all) && all@ == a.buffer@
    }
}

/// `OSStatus AudioFileStreamParseBytes(...);`, up to where the file is parsed:
/// the bytes are kept with those that came before.
pub fn AudioFileStreamParseBytes(
    env: &mut Environment,
    in_audio_file_stream: AudioFileStreamID,
    in_data_byte_size: u32,
    in_data: MutVoidPtr,
    _in_discontinuity: bool,
) -> (r: ParseStep)
    requires
        old(env).wf(),
        in_audio_file_stream != 0 ==> {
            &&& in_data_byte_size > 0 ==> old(env).mem.valid(
                in_data as int,
                in_data_byte_size as int,
            )
            &&& audio(*old(env)).audio_file_streams@.contains_key(in_audio_file_stream)
        },
    ensures
        final(env).wf(),
        if in_audio_file_stream == 0 {
            r == ParseStep::Done(paramErr) && *final(env) == *old(env)
        } else {
            bytes_buffered(
                *old(env),
                *final(env),
                in_audio_file_stream,
                bytes_from(old(env).mem, in_data as int, in_data_byte_size as int),
                r,
            )
        },
{
    if in_audio_file_stream == 0 {
        return ParseStep::Done(paramErr);
    }
    let mut new_bytes: Vec<u8> = env.mem.bytes_at(in_data, in_data_byte_size);
    assert(new_bytes@ =~= bytes_from(
        env.mem,
        in_data as int,
        in_data_byte_size as int,
    ));
    let removed: Option<AudioFileStreamHostObject> =
        env.framework_state.audio_toolbox.audio_file.audio_file_streams.remove(
        &in_audio_file_stream,
    );
    match removed {
        Some(mut stream) => {
            stream.buffer.append(&mut new_bytes);
            let step: ParseStep = if stream.parsed_audio_file.is_some() {
                ParseStep::Deliver
            } else {
                ParseStep::Parse(stream.buffer.clone())
            };
            let ghost host = stream;
            let _ = env.framework_state.audio_toolbox.audio_file.audio_file_streams.insert(
                in_audio_file_stream,
                stream,
            );
            assert(audio(*env).audio_file_streams@ =~= audio(*old(env)).audio_file_streams@.insert(
                in_audio_file_stream,
                host,
            ));
            step
        },
        None => ParseStep::Done(0),
    }
}

/// A call of a stream's property listener, which is to be made.
#[derive(Clone, Copy, Debug, PartialEq, Eq, Structural)]
pub struct ListenerCall {
    pub func: GuestFunction,
    pub client_data: MutVoidPtr,
    pub stream: AudioFileStreamID,
    pub property: AudioFilePropertyID,
    pub flags: MutPtr,
}

/// What came of trying to parse what a stream was given.
#[derive(Clone, Copy, Debug, PartialEq, Eq, Structural)]
pub struct ParseAttempt {
    /// The bytes have parsed, now or before.
    pub ready: bool,
    /// The first call of the listener, where they parsed now.
    pub listener: Option<ListenerCall>,
}

/// A stream took over what parsing its bytes gave: nothing, or a file, of which
/// its listener is to be told. A stream that has its file already is left alone.
pub open spec fn parse_answered(
    before: Environment,
    after: Environment,
    id: AudioFileStreamID,
    parsed: Option<AudioFile>,
    attempt: ParseAttempt,
) -> bool {
    let b = audio(before).audio_file_streams@[id];
    let r = attempt.listener;
    &&& attempt.ready == (b.parsed_audio_file is Some || parsed is Some)
    &&& if b.parsed_audio_file is Some || parsed is None {
        r is None && after == before
    } else {
        let file = parsed->0;
        &&& r is Some
        &&& r->0 == (ListenerCall {
            func: b.property_listener_proc,
            client_data: b.client_data,
            stream: id,
            property: kAudioFilePropertyDataFormat,
            flags: r->0.flags,
        })
        &&& stream_set(
            before.with_mem(after.mem),
            after,
            id,
            AudioFileStreamHostObject { parsed_audio_file: Some(file), ..b },
        )
        &&& after.mem.placed(before.mem, r->0.flags, le_bytes(0, 4))
    }
}

/// Takes over what parsing the buffered bytes gave. The first time that it
/// succeeds, the client is to be told that the data format is known; until
/// then more bytes are awaited.
pub fn try_parse_buffered_stream(
    env: &mut Environment,
    in_audio_file_stream: AudioFileStreamID,
    parsed: Option<AudioFile>,
) -> (r: ParseAttempt)
    requires
        old(env).wf(),
        audio(*old(env)).audio_file_streams@.contains_key(in_audio_file_stream),
        parsed is Some && audio(
            *old(env),
        ).audio_file_streams@[in_audio_file_stream].parsed_audio_file is None ==> old(
            env,
        ).mem.has_room(4),
    ensures
        final(env).wf(),
        parse_answered(*old(env), *final(env), in_audio_file_stream, parsed, r),
        r.ready == (audio(
            *final(env),
        ).audio_file_streams@[in_audio_file_stream].parsed_audio_file is Some),
{
    let known: bool = env.framework_state.audio_toolbox.audio_file.audio_file_streams.get(
        &in_audio_file_stream,
    ).unwrap().parsed_audio_file.is_some();
    if known {
        return ParseAttempt { ready: true, listener: None };
    }
    let file: AudioFile = match parsed {
        Some(file) => file,
        None => {
            return ParseAttempt { ready: false, listener: None };
        },
    };
    let removed: Option<AudioFileStreamHostObject> =
        env.framework_state.audio_toolbox.audio_file.audio_file_streams.remove(
        &in_audio_file_stream,
    );
    match removed {
        Some(mut stream) => {
            let client_data: u32 = stream.client_data;
            let func: u32 = stream.property_listener_proc;
            stream.parsed_audio_file = Some(file);
            let ghost host = stream;
            let _ = env.framework_state.audio_toolbox.audio_file.audio_file_streams.insert(
                in_audio_file_stream,
                stream,
            );
            assert(audio(*env).audio_file_streams@ =~= audio(*old(env)).audio_file_streams@.insert(
                in_audio_file_stream,
                host,
            ));
            let zero: Vec<u8> = vec![0, 0, 0, 0];
            proof {
                crate::mem::lemma_le_bytes_4(0);
                assert(zero@ =~= le_bytes(0, 4));
            }
            let flags: u32 = env.mem.alloc_and_write(&zero);
            let call: ListenerCall = ListenerCall {
                func,
                client_data,
                stream: in_audio_file_stream,
                property: kAudioFilePropertyDataFormat,
                flags,
            };
            ParseAttempt { ready: true, listener: Some(call) }
        },
        None => ParseAttempt { ready: false, listener: None },
    }
}

/// The flags were cleared, and the listener is to be told that packets can be
/// produced.
pub open spec fn told_again(
    before: Environment,
    after: Environment,
    call: ListenerCall,
    r: ListenerCall,
) -> bool {
    &&& word_put(before, after, call.flags as int, 0)
    &&& r == (ListenerCall { property: kAudioFileStreamProperty_ReadyToProducePackets, ..call })
}

/// After the client was told of the format it is to be told that packets can
/// be produced, with the flags cleared again.
pub fn listener_next(env: &mut Environment, call: &ListenerCall) -> (r: ListenerCall)
    requires
        old(env).wf(),
        old(env).mem.valid(call.flags as int, 4),
    ensures
        final(env).wf(),
        told_again(*old(env), *final(env), *call, r),
{
    env.mem.write_u32(call.flags, 0);
    ListenerCall {
        func: call.func,
        client_data: call.client_data,
        stream: call.stream,
        property: kAudioFileStreamProperty_ReadyToProducePackets,
        flags: call.flags,
    }
}

/// After both calls the flags are freed.
pub fn listener_done(env: &mut Environment, call: &ListenerCall)
    requires
        old(env).wf(),
    ensures
        final(env).wf(),
        *final(env) == old(env).with_mem(final(env).mem),
        final(env).mem.released(old(env).mem, call.flags),
{
    env.mem.free(call.flags);
}

/// A call of a stream's packet function, which is to be made.
#[derive(Clone, Copy, Debug, PartialEq, Eq, Structural)]
pub struct PacketsCall {
    pub func: GuestFunction,
    pub client_data: MutVoidPtr,
    pub num_bytes: u32,
    pub num_packets: u32,
    pub data: MutPtr,
}

/// How many bytes a stream can deliver: those of whole packets that were not
/// delivered yet.
pub open spec fn undelivered(stream: AudioFileStreamHostObject, packet_size: int) -> int {
    let total = stream.buffer@.len() as int;
    let available = total - total % packet_size;
    if available > stream.bytes_delivered {
        available - stream.bytes_delivered
    } else {
        0
    }
}

/// How many bytes are delivered next: none before the file was parsed.
pub fn undelivered_bytes(stream: &AudioFileStreamHostObject) -> (r: usize)
    ensures
        r == if stream.parsed_audio_file is Some && stream.parsed_audio_file->0.packet_size > 0 {
            undelivered(*stream, stream.parsed_audio_file->0.packet_size as int)
        } else {
            0
        },
        r > 0 ==> stream.bytes_delivered + r <= stream.buffer@.len(),
{
    let packet_size: u32 = match &stream.parsed_audio_file {
        Some(file) => file.packet_size,
        None => 0,
    };
    if packet_size == 0 {
        return 0;
    }
    let total: usize = stream.buffer.len();
    proof {
        vstd::arithmetic::div_mod::lemma_mod_decreases(total as nat, packet_size as nat);
    }
    let available: usize = total - total % packet_size as usize;
    if available > stream.bytes_delivered {
        available - stream.bytes_delivered
    } else {
        0
    }
}

/// Packets of a stream were delivered: the bytes are in a new chunk, and
/// count as delivered.
pub open spec fn packets_delivered(
    before: Environment,
    after: Environment,
    id: AudioFileStreamID,
    call: PacketsCall,
) -> bool {
    let b = audio(before).audio_file_streams@[id];
    let packet_size = b.parsed_audio_file->0.packet_size as int;
    let n = undelivered(b, packet_size);
    &&& call.func == b.packets_proc
    &&& call.client_data == b.client_data
    &&& call.num_bytes == n
    &&& call.num_packets == n / packet_size
    &&& stream_set(
        before.with_mem(after.mem),
        after,
        id,
        AudioFileStreamHostObject { bytes_delivered: (b.bytes_delivered + n) as usize, ..b },
    )
    &&& after.mem.placed(
        before.mem,
        call.data,
        b.buffer@.subrange(b.bytes_delivered as int, b.bytes_delivered + n),
    )
}

/// The packets that were not delivered yet were, if there are any.
pub open spec fn delivery_done(
    before: Environment,
    after: Environment,
    id: AudioFileStreamID,
    r: Option<PacketsCall>,
) -> bool {
    let b = audio(before).audio_file_streams@[id];
    let packet_size = b.parsed_audio_file->0.packet_size as int;
    if packet_size == 0 || undelivered(b, packet_size) == 0 {
        &&& r is None
        &&& audio(after).audio_file_streams@ == audio(before).audio_file_streams@
        &&& after == before.with_audio_file(
            State { audio_file_streams: audio(after).audio_file_streams, ..audio(before) },
        )
    } else {
        r matches Some(call) && packets_delivered(before, after, id, call)
    }
}

/// Hands over the packets that were not delivered yet, all at once, if there
/// are any.
pub fn deliver_packets(env: &mut Environment, in_audio_file_stream: AudioFileStreamID) -> (r: Option<
    PacketsCall,
>)
    requires
        old(env).wf(),
        audio(*old(env)).audio_file_streams@.contains_key(in_audio_file_stream),
        ({
            let b = audio(*old(env)).audio_file_streams@[in_audio_file_stream];
            &&& b.parsed_audio_file is Some
            &&& b.buffer@.len() <= u32::MAX
            &&& b.parsed_audio_file->0.packet_size > 0 ==> {
                let n = undelivered(b, b.parsed_audio_file->0.packet_size as int);
                n > 0 ==> old(env).mem.has_room(n)
            }
        }),
    ensures
        final(env).wf(),
        delivery_done(*old(env), *final(env), in_audio_file_stream, r),
{
    let removed: Option<AudioFileStreamHostObject> =
        env.framework_state.audio_toolbox.audio_file.audio_file_streams.remove(
        &in_audio_file_stream,
    );
    let mut stream: AudioFileStreamHostObject = match removed {
        Some(stream) => stream,
        None => {
            return None;
        },
    };
    let ghost b = stream;
    let packet_size: u32 = match &stream.parsed_audio_file {
        Some(file) => file.packet_size,
        None => 0,
    };
    let total: usize = stream.buffer.len();
    let start: usize = stream.bytes_delivered;
    let n: usize = undelivered_bytes(&stream);
    if n == 0 {
        let _ = env.framework_state.audio_toolbox.audio_file.audio_file_streams.insert(
            in_audio_file_stream,
            stream,
        );
        assert(audio(*env).audio_file_streams@ =~= audio(*old(env)).audio_file_streams@);
        return None;
    }
    let mut chunk: Vec<u8> = Vec::new();
    let mut i: usize = 0;
    while i < n
        invariant
            i <= n,
            start + n <= total == stream.buffer@.len(),
            chunk@ =~= stream.buffer@.subrange(start as int, start + i),
        decreases n - i,
    {
        chunk.push(stream.buffer[start + i]);
        i = i + 1;
    }
    let client_data: u32 = stream.client_data;
    let func: u32 = stream.packets_proc;
    stream.bytes_delivered = start + n;
    let ghost host = stream;
    let _ = env.framework_state.audio_toolbox.audio_file.audio_file_streams.insert(
        in_audio_file_stream,
        stream,
    );
    assert(audio(*env).audio_file_streams@ =~= audio(*old(env)).audio_file_streams@.insert(
        in_audio_file_stream,
        host,
    ));
    let data: u32 = env.mem.alloc_and_write(&chunk);
    let call: PacketsCall = PacketsCall {
        func,
        client_data,
        num_bytes: n as u32,
        num_packets: n as u32 / packet_size,
        data,
    };
    Some(call)
}

/// After the packet function was called its data is freed.
pub fn packets_done(env: &mut Environment, call: &PacketsCall)
    requires
        old(env).wf(),
    ensures
        final(env).wf(),
        *final(env) == old(env).with_mem(final(env).mem),
        final(env).mem.released(old(env).mem, call.data),
{
    env.mem.free(call.data);
}

/// Packets are whole, each byte is delivered once, and what is delivered
/// follows what was delivered before.
pub proof fn law_packets_whole(
    before: Environment,
    after: Environment,
    id: AudioFileStreamID,
    call: PacketsCall,
)
    requires
        audio(before).audio_file_streams@.contains_key(id),
        ({
            let b = audio(before).audio_file_streams@[id];
            &&& b.parsed_audio_file is Some
            &&& b.parsed_audio_file->0.packet_size > 0
            &&& b.bytes_delivered as int % b.parsed_audio_file->0.packet_size as int == 0
            &&& b.bytes_delivered <= b.buffer@.len() <= usize::MAX
        }),
        packets_delivered(before, after, id, call),
    ensures
        ({
            let b = audio(before).audio_file_streams@[id];
            let a = audio(after).audio_file_streams@[id];
            let p = b.parsed_audio_file->0.packet_size as int;
            &&& call.num_bytes == call.num_packets * p
            &&& a.bytes_delivered == b.bytes_delivered + call.num_bytes
            &&& a.bytes_delivered as int % p == 0
            &&& undelivered(a, p) == 0
        }),
{
    let b = audio(before).audio_file_streams@[id];
    let a = audio(after).audio_file_streams@[id];
    let p = b.parsed_audio_file->0.packet_size as int;
    let total = b.buffer@.len() as int;
    let n = undelivered(b, p);
    let q = total / p;
    let k = b.bytes_delivered as int / p;
    vstd::arithmetic::div_mod::lemma_fundamental_div_mod(total, p);
    vstd::arithmetic::div_mod::lemma_fundamental_div_mod(b.bytes_delivered as int, p);
    vstd::arithmetic::div_mod::lemma_mod_bound(total, p);
    assert(total - total % p == p * q);
    assert(b.bytes_delivered == p * k);
    assert(a.bytes_delivered == b.bytes_delivered + n);
    if p * q > p * k {
        assert(n == p * q - p * k);
        assert(p * q - p * k == p * (q - k)) by (nonlinear_arith);
        vstd::arithmetic::div_mod::lemma_div_multiples_vanish(q - k, p);
        assert(n / p == q - k);
        assert((q - k) * p == p * (q - k)) by (nonlinear_arith);
        assert(a.bytes_delivered == p * q);
        vstd::arithmetic::div_mod::lemma_mod_multiples_basic(q, p);
        assert(q * p == p * q) by (nonlinear_arith);
    } else {
        vstd::arithmetic::div_mod::lemma_div_of0(p);
        vstd::arithmetic::mul::lemma_mul_basics(p);
        assert(n == 0);
    }
    assert(call.num_packets == n / p);
    assert(call.num_bytes == call.num_packets * p);
    assert(a.bytes_delivered as int % p == 0);
    assert(undelivered(a, p) == 0);
}

/// The size of a stream's property, where it has one.
pub open spec fn stream_property_size(property: AudioFilePropertyID) -> Option<int> {
    if property == kAudioFilePropertyDataFormat {
        Some(40)
    } else if property == kAudioFilePropertyFileFormat || property
        == kAudioFilePropertyPacketSizeUpperBound {
        Some(4)
    } else if property == kAudioFilePropertyAudioDataByteCount || property
        == kAudioFilePropertyAudioDataPacketCount {
        Some(8)
    } else {
        None
    }
}

/// `OSStatus AudioFileStreamGetPropertyInfo(...);`
pub fn AudioFileStreamGetPropertyInfo(
    env: &mut Environment,
    in_audio_file_stream: AudioFileStreamID,
    in_property_id: AudioFilePropertyID,
    out_property_data_size: MutPtr,
    is_writable: MutPtr,
) -> (r: OSStatus)
    requires
        old(env).wf(),
        out_property_data_size != 0 ==> old(env).mem.valid(out_property_data_size as int, 4),
        is_writable != 0 ==> old(env).mem.valid(is_writable as int, 4),
    ensures
        final(env).wf(),
        if in_audio_file_stream == 0 {
            r == paramErr && *final(env) == *old(env)
        } else {
            match stream_property_size(in_property_id) {
                Some(size) => r == 0 && words_put(
                    *old(env),
                    *final(env),
                    out_property_data_size as int,
                    size,
                    is_writable as int,
                    0,
                ),
                None => {
                    &&& r == kAudioFileUnsupportedPropertyError
                    &&& if in_property_id == kAudioFilePropertyMagicCookieData {
                        words_put(
                            *old(env),
                            *final(env),
                            out_property_data_size as int,
                            0,
                            is_writable as int,
                            0,
                        )
                    } else {
                        *final(env) == *old(env)
                    }
                },
            }
        },
{
    if in_audio_file_stream == 0 {
        return paramErr;
    }
    let size: u32 = match in_property_id {
        kAudioFilePropertyDataFormat => DESCRIPTION_SIZE,
        kAudioFilePropertyFileFormat => 4,
        kAudioFilePropertyPacketSizeUpperBound => 4,
        kAudioFilePropertyAudioDataByteCount => 8,
        kAudioFilePropertyAudioDataPacketCount => 8,
        kAudioFilePropertyMagicCookieData => {
            put_size_and_writable(env, out_property_data_size, 0, is_writable);
            return kAudioFileUnsupportedPropertyError;
        },
        _ => {
            return kAudioFileUnsupportedPropertyError;
        },
    };
    put_size_and_writable(env, out_property_data_size, size, is_writable);
    0
}

/// A stream's property is one that can be read.
pub open spec fn stream_property_readable(property: AudioFilePropertyID) -> bool {
    stream_property_size(property) is Some && property != kAudioFilePropertyFileFormat
}

/// The size of a property was stored, and then the property.
pub open spec fn size_and_property_put(
    before: Environment,
    after: Environment,
    io_size: int,
    out: int,
    bytes: Seq<u8>,
) -> bool {
    &&& after == before.with_mem(after.mem)
    &&& exists|mid: Mem| #[trigger]
        mid.stored(before.mem, io_size, le_bytes(bytes.len() as int, 4)) && after.mem.stored(
            mid,
            out,
            bytes,
        )
}

/// `OSStatus AudioFileStreamGetProperty(...);`
pub fn AudioFileStreamGetProperty(
    env: &mut Environment,
    in_audio_file_stream: AudioFileStreamID,
    in_property_id: AudioFilePropertyID,
    io_property_data_size: MutPtr,
    out_property_data: MutVoidPtr,
) -> (r: OSStatus)
    requires
        old(env).wf(),
        in_audio_file_stream != 0 ==> {
            &&& audio(*old(env)).audio_file_streams@.contains_key(in_audio_file_stream)
            &&& audio(*old(env)).audio_file_streams@[in_audio_file_stream].parsed_audio_file
                matches Some(file) ==> file.data@.len() <= u64::MAX
            &&& stream_property_readable(in_property_id) ==> old(env).mem.valid(
                io_property_data_size as int,
                4,
            ) && old(env).mem.valid(
                out_property_data as int,
                stream_property_size(in_property_id)->0,
            )
        },
    ensures
        final(env).wf(),
        if in_audio_file_stream == 0 {
            r == paramErr && *final(env) == *old(env)
        } else {
            match audio(*old(env)).audio_file_streams@[in_audio_file_stream].parsed_audio_file {
                None => r == kAudioFileUnspecifiedError && *final(env) == *old(env),
                Some(file) => if stream_property_readable(in_property_id) {
                    r == 0 && size_and_property_put(
                        *old(env),
                        *final(env),
                        io_property_data_size as int,
                        out_property_data as int,
                        property_bytes(file, in_property_id)->0,
                    )
                } else {
                    r == kAudioFileUnsupportedPropertyError && *final(env) == *old(env)
                },
            }
        },
{
    if in_audio_file_stream == 0 {
        return paramErr;
    }
    let readable: bool = match in_property_id {
        kAudioFilePropertyDataFormat => true,
        kAudioFilePropertyPacketSizeUpperBound => true,
        kAudioFilePropertyAudioDataByteCount => true,
        kAudioFilePropertyAudioDataPacketCount => true,
        _ => false,
    };
    let bytes: Option<Vec<u8>> =
        match env.framework_state.audio_toolbox.audio_file.audio_file_streams.get(
        &in_audio_file_stream,
    ) {
        Some(stream) => match &stream.parsed_audio_file {
            Some(file) => {
                if !readable {
                    return kAudioFileUnsupportedPropertyError;
                }
                property_to_bytes(file, in_property_id)
            },
            None => {
                return kAudioFileUnspecifiedError;
            },
        },
        None => {
            return kAudioFileUnspecifiedError;
        },
    };
    match bytes {
        Some(b) => {
            env.mem.write_u32(io_property_data_size, b.len() as u32);
            let ghost mid = env.mem;
            assert(mid.stored(
                old(env).mem,
                io_property_data_size as int,
                le_bytes(b@.len() as int, 4),
            ));
            env.mem.write_bytes(out_property_data, &b);
            0
        },
        None => kAudioFileUnsupportedPropertyError,
    }
}

/// `OSStatus AudioFileStreamSeek(...);`: not supported, so that the client reads
/// on in sequence.
pub fn AudioFileStreamSeek(
    env: &mut Environment,
    in_audio_file_stream: AudioFileStreamID,
    _in_packet_offset: i64,
    _out_data_byte_offset: MutPtr,
    _out_flags: MutPtr,
) -> (r: OSStatus)
    ensures
        *final(env) == *old(env),
        r == if in_audio_file_stream == 0 {
            paramErr
        } else {
            kAudioFileUnspecifiedError
        },
{
    if in_audio_file_stream == 0 {
        return paramErr;
    }
    kAudioFileUnspecifiedError
}

/// `OSStatus AudioFileStreamClose(AudioFileStreamID in_audio_file_stream);`
pub fn AudioFileStreamClose(env: &mut Environment, in_audio_file_stream: AudioFileStreamID) -> (r:
    OSStatus)
    requires
        old(env).wf(),
    ensures
        final(env).wf(),
        if in_audio_file_stream == 0 {
            r == paramErr && *final(env) == *old(env)
        } else if !audio(*old(env)).audio_file_streams@.contains_key(in_audio_file_stream) {
            r == kAudioFileUnspecifiedError && *final(env) == *old(env)
        } else {
            &&& r == 0
            &&& *final(env) == old(env).with_mem(final(env).mem).with_audio_file(
                (State {
                    audio_file_streams: audio(*final(env)).audio_file_streams,
                    ..audio(*old(env))
                }),
            )
            &&& audio(*final(env)).audio_file_streams@ == audio(
                *old(env),
            ).audio_file_streams@.remove(in_audio_file_stream)
            &&& final(env).mem.released(old(env).mem, in_audio_file_stream)
        },
{
    if in_audio_file_stream == 0 {
        return paramErr;
    }
    if !env.framework_state.audio_toolbox.audio_file.audio_file_streams.contains_key(
        &in_audio_file_stream,
    ) {
        return kAudioFileUnspecifiedError;
    }
    let _ = env.framework_state.audio_toolbox.audio_file.audio_file_streams.remove(
        &in_audio_file_stream,
    );
    assert(audio(*env).audio_file_streams@ =~= audio(*old(env)).audio_file_streams@.remove(
        in_audio_file_stream,
    ));
    env.mem.free(in_audio_file_stream);
    0
}

} // verus!

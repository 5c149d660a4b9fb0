//! Audio files and streams.
use hyperhle::environment::{Bundle, Environment};
use hyperhle::frameworks::audio_toolbox::audio_file;
use hyperhle::frameworks::audio_toolbox::audio_file::{
    eofErr, kAudioFileBadPropertySizeError, kAudioFilePropertyAudioDataByteCount,
    kAudioFilePropertyDataFormat, kAudioFileReadPermission, kAudioFileUnspecifiedError,
    kAudioFileUnsupportedFileTypeError, kAudioFileUnsupportedPropertyError, paramErr, AudioFile,
    AudioFileOpenError, AudioStreamBasicDescription, ParseStep,
};
use hyperhle::fs::Fs;
use hyperhle::mem::Mem;
use hyperhle::objc::KnownClasses;

fn chars(s: &str) -> Vec<char> {
    s.chars().collect()
}

fn guest() -> Environment {
    let bundle = Bundle {
        bundle_path: chars("/App.app"),
        executable_path: chars("/App.app/App"),
        bundle_identifier: b"org.example.app".to_vec(),
    };
    let classes = KnownClasses {
        ns_dictionary: 0x10,
        ns_mutable_dictionary: 0x20,
        cg_context: 0x30,
        cg_data_provider: 0x40,
        cg_font: 0x50,
    };
    let mut env = Environment::new(Mem::new(0x40000), Fs::new(1 << 20), bundle, classes);
    env.fs.create_dir(&chars("/App.app")).unwrap();
    env
}

fn sound(data: &[u8], packet_size: u32) -> AudioFile {
    AudioFile {
        description: AudioStreamBasicDescription {
            sample_rate: 44100.0f64.to_bits(),
            format_id: 0x6c70_636d,
            format_flags: 12,
            bytes_per_packet: packet_size,
            frames_per_packet: 1,
            bytes_per_frame: packet_size,
            channels_per_frame: 1,
            bits_per_channel: 16,
            reserved: 0,
        },
        data: data.to_vec(),
        packet_count: data.len() as u64 / packet_size as u64,
        packet_size,
        packet_size_upper_bound: packet_size,
        estimated_duration: 0,
    }
}

fn open(env: &mut Environment, file: AudioFile) -> u32 {
    let out = env.mem.allocate(4);
    let read = kAudioFileReadPermission;
    assert_eq!(audio_file::AudioFileOpenURL(env, 1, read, 0, out, Ok(file)), 0);
    env.mem.read_u32(out)
}

#[test]
fn files_are_opened() {
    let mut env = guest();
    let out = env.mem.allocate(4);
    let read = kAudioFileReadPermission;
    let failed = Err(AudioFileOpenError::FileReadError);
    assert_eq!(
        audio_file::AudioFileOpenURL(&mut env, 1, read, 0, out, failed),
        kAudioFileUnspecifiedError
    );
    let failed = Err(AudioFileOpenError::FileDecodeError);
    assert_eq!(
        audio_file::AudioFileOpenURL(&mut env, 1, read, 0, out, failed),
        kAudioFileUnsupportedFileTypeError
    );
    let failed = Err(AudioFileOpenError::FileDecodeError);
    assert_eq!(audio_file::AudioFileOpenURL(&mut env, 0, read, 0, out, failed), paramErr);
    let file = open(&mut env, sound(b"abcdef", 2));
    assert_eq!(audio_file::AudioFileClose(&mut env, file), 0);
}

#[test]
fn properties_of_files() {
    let mut env = guest();
    let file = open(&mut env, sound(b"abcdef", 2));
    let size = env.mem.allocate(4);
    let data = env.mem.allocate(64);
    let bytes = kAudioFilePropertyAudioDataByteCount;
    assert_eq!(audio_file::AudioFileGetPropertyInfo(&mut env, file, bytes, size, 0), 0);
    assert_eq!(env.mem.read_u32(size), 8);
    assert_eq!(audio_file::AudioFileGetProperty(&mut env, file, bytes, size, data), 0);
    assert_eq!(env.mem.read_i64(data), 6);
    env.mem.write_u32(size, 3);
    assert_eq!(
        audio_file::AudioFileGetProperty(&mut env, file, bytes, size, data),
        kAudioFileBadPropertySizeError
    );
    assert_eq!(audio_file::property_size(kAudioFilePropertyDataFormat), 40);
    env.mem.write_u32(size, 40);
    let format = kAudioFilePropertyDataFormat;
    assert_eq!(audio_file::AudioFileGetProperty(&mut env, file, format, size, data), 0);
    assert_eq!(env.mem.read_u32(data + 8), 0x6c70_636d);
}

#[test]
fn bytes_and_packets_are_read() {
    let mut env = guest();
    let file = open(&mut env, sound(b"abcdef", 2));
    let count = env.mem.allocate(4);
    let bytes = env.mem.allocate(4);
    let out = env.mem.allocate(16);
    env.mem.write_u32(count, 3);
    assert_eq!(audio_file::AudioFileReadBytes(&mut env, file, false, 2, count, out), 0);
    assert_eq!(env.mem.read_u32(count), 3);
    assert_eq!(env.mem.bytes_at(out, 3), b"cde".to_vec());
    env.mem.write_u32(count, 10);
    assert_eq!(audio_file::AudioFileReadBytes(&mut env, file, false, 4, count, out), eofErr);
    assert_eq!(env.mem.read_u32(count), 2);
    env.mem.write_u32(count, 2);
    env.mem.write_u32(bytes, 0);
    assert_eq!(
        audio_file::AudioFileReadPackets(&mut env, file, false, bytes, 0, 1, count, out),
        0
    );
    assert_eq!(env.mem.read_u32(bytes), 4);
    assert_eq!(env.mem.bytes_at(out, 4), b"cdef".to_vec());
}

#[test]
fn streams_deliver_whole_packets() {
    let mut env = guest();
    let out = env.mem.allocate(4);
    assert_eq!(audio_file::AudioFileStreamOpen(&mut env, 7, 0x101, 0x201, 0, out), 0);
    let stream = env.mem.read_u32(out);
    let data = env.mem.alloc_and_write(&b"abcde".to_vec());
    match audio_file::AudioFileStreamParseBytes(&mut env, stream, 5, data, false) {
        ParseStep::Parse(bytes) => assert_eq!(bytes, b"abcde".to_vec()),
        _ => panic!("nothing to parse"),
    }
    let attempt = audio_file::try_parse_buffered_stream(&mut env, stream, None);
    assert_eq!((attempt.ready, attempt.listener), (false, None));
    let parsed = Some(sound(b"abcde", 2));
    let attempt = audio_file::try_parse_buffered_stream(&mut env, stream, parsed);
    assert!(attempt.ready);
    let listener = attempt.listener.unwrap();
    assert_eq!(listener.func, 0x101);
    assert_eq!(listener.property, kAudioFilePropertyDataFormat);
    let ready = audio_file::listener_next(&mut env, &listener);
    audio_file::listener_done(&mut env, &ready);
    let call = audio_file::deliver_packets(&mut env, stream).unwrap();
    assert_eq!((call.num_bytes, call.num_packets), (4, 2));
    assert_eq!(env.mem.bytes_at(call.data, 4), b"abcd".to_vec());
    audio_file::packets_done(&mut env, &call);
    assert!(audio_file::deliver_packets(&mut env, stream).is_none());
    let more = env.mem.alloc_and_write(&b"f".to_vec());
    assert!(matches!(
        audio_file::AudioFileStreamParseBytes(&mut env, stream, 1, more, false),
        ParseStep::Deliver
    ));
    let call = audio_file::deliver_packets(&mut env, stream).unwrap();
    assert_eq!(env.mem.bytes_at(call.data, 2), b"ef".to_vec());
    assert_eq!(audio_file::AudioFileStreamClose(&mut env, stream), 0);
}

#[test]
fn unknown_properties_of_streams() {
    let mut env = guest();
    let out = env.mem.allocate(4);
    audio_file::AudioFileStreamOpen(&mut env, 7, 0x101, 0x201, 0, out);
    let stream = env.mem.read_u32(out);
    let size = env.mem.allocate(4);
    assert_eq!(
        audio_file::AudioFileStreamGetPropertyInfo(&mut env, stream, 0x1234, size, 0),
        kAudioFileUnsupportedPropertyError
    );
}

#[test]
fn files_read_through_callbacks() {
    let mut env = guest();
    let out = env.mem.allocate(4);
    let read = audio_file::AudioFileOpenWithCallbacks(&mut env, 6);
    assert_eq!(read.size, 6);
    env.mem.write_bytes(read.data_ptr, &b"abcdef".to_vec());
    env.mem.write_u32(read.bytes_read_ptr, 6);
    assert_eq!(audio_file::callback_read_bytes(&env, &read, 0), Ok(b"abcdef".to_vec()));
    assert!(audio_file::callback_read_bytes(&env, &read, -1).is_err());
    let parsed = Ok(sound(b"abcdef", 2));
    assert_eq!(audio_file::open_with_callbacks_finish(&mut env, parsed, out), 0);
    let file = env.mem.read_u32(out);
    assert_eq!(audio_file::AudioFileClose(&mut env, file), 0);
}

#[test]
fn streams_deliver_a_prefix_over_all_calls() {
    let mut env = guest();
    let out = env.mem.allocate(4);
    assert_eq!(audio_file::AudioFileStreamOpen(&mut env, 7, 0x101, 0x201, 0, out), 0);
    let stream = env.mem.read_u32(out);
    let mut told = Vec::new();
    let mut handed = Vec::new();
    for (i, chunk) in [&b"ab"[..], b"c", b"defgh", b"", b"ijk"].iter().enumerate() {
        let data = env.mem.alloc_and_write(&chunk.to_vec());
        let size = chunk.len() as u32;
        match audio_file::AudioFileStreamParseBytes(&mut env, stream, size, data, false) {
            ParseStep::Done(_) => panic!("the stream is open"),
            ParseStep::Parse(all) => {
                let parsed = if i < 2 { None } else { Some(sound(&all, 3)) };
                let attempt = audio_file::try_parse_buffered_stream(&mut env, stream, parsed);
                assert_eq!(attempt.ready, i >= 2);
                match attempt.listener {
                    None => continue,
                    Some(first) => {
                        assert_eq!(env.mem.read_u32(first.flags), 0);
                        env.mem.write_u32(first.flags, 1);
                        let second = audio_file::listener_next(&mut env, &first);
                        assert_eq!(env.mem.read_u32(second.flags), 0);
                        told.push((first.func, first.client_data, first.stream, first.property));
                        told.push((
                            second.func,
                            second.client_data,
                            second.stream,
                            second.property,
                        ));
                        audio_file::listener_done(&mut env, &second);
                    }
                }
            }
            ParseStep::Deliver => {}
        }
        if let Some(call) = audio_file::deliver_packets(&mut env, stream) {
            assert_eq!((call.func, call.client_data), (0x201, 7));
            assert!(call.num_bytes > 0);
            assert_eq!(call.num_packets, call.num_bytes / 3);
            handed.extend(env.mem.bytes_at(call.data, call.num_bytes));
            audio_file::packets_done(&mut env, &call);
        }
    }
    assert_eq!(told, vec![(0x101, 7, stream, 0x6466_6d74), (0x101, 7, stream, 0x7265_6479)]);
    assert_eq!(handed, b"abcdefghi".to_vec());
}

#[test]
fn a_stream_is_parsed_once() {
    let mut env = guest();
    let out = env.mem.allocate(4);
    assert_eq!(audio_file::AudioFileStreamOpen(&mut env, 7, 0x101, 0x201, 0, out), 0);
    let stream = env.mem.read_u32(out);
    let parsed = Some(sound(b"ab", 2));
    assert!(audio_file::try_parse_buffered_stream(&mut env, stream, parsed).listener.is_some());
    let chunks = env.mem.chunks.len();
    for parsed in [None, Some(sound(b"abcd", 4))] {
        let attempt = audio_file::try_parse_buffered_stream(&mut env, stream, parsed);
        assert_eq!((attempt.ready, attempt.listener), (true, None));
    }
    assert_eq!(env.mem.chunks.len(), chunks);
    let streams = &env.framework_state.audio_toolbox.audio_file.audio_file_streams;
    assert_eq!(streams[&stream].parsed_audio_file.as_ref().unwrap().packet_size, 2);
    assert_eq!(audio_file::undelivered_bytes(&streams[&stream]), 0);
}

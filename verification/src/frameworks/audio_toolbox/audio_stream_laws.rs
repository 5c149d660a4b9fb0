//! What holds of an audio file stream over all calls of
//! `AudioFileStreamParseBytes`.
use vstd::prelude::*;

use crate::environment::Environment;
use crate::frameworks::audio_toolbox::audio_file::{
    audio, bytes_buffered, delivery_done, kAudioFilePropertyDataFormat,
    kAudioFileStreamProperty_ReadyToProducePackets, parse_answered, told_again, undelivered,
    AudioFile, AudioFileStreamHostObject, AudioFileStreamID, ListenerCall, PacketsCall,
    ParseAttempt, ParseStep,
};
use crate::mem::{le_bytes, le_u32, lemma_le_bytes_4};

verus! {

/// One call of `AudioFileStreamParseBytes`, with the states between its steps.
pub ghost struct StreamCall {
    /// The bytes that it was given.
    pub bytes: Seq<u8>,
    pub entered: Environment,
    /// Once the bytes were kept.
    pub buffered: Environment,
    pub step: ParseStep,
    /// What parsing gave, before and after it was taken over.
    pub asked: Environment,
    pub parsed: Option<AudioFile>,
    pub answered: Environment,
    /// The bytes have parsed, now or before.
    pub ready: bool,
    /// The first call of the listener, if it is called.
    pub listener: Option<ListenerCall>,
    /// Before and after the second call of the listener was made ready, and
    /// that call.
    pub retelling: Environment,
    pub retold: Environment,
    pub again: ListenerCall,
    /// Before and after packets were delivered.
    pub delivering: Environment,
    pub delivered: Environment,
    pub packets: Option<PacketsCall>,
    pub left: Environment,
}

/// The state of a stream.
pub open spec fn stream_of(env: Environment, id: AudioFileStreamID) -> AudioFileStreamHostObject {
    audio(env).audio_file_streams@[id]
}

/// Other code, such as the guest's, ran in between and left the stream alone.
pub open spec fn stream_kept(a: Environment, b: Environment, id: AudioFileStreamID) -> bool {
    &&& audio(b).audio_file_streams@.contains_key(id)
    &&& stream_of(b, id) == stream_of(a, id)
}

impl StreamCall {
    /// Packets are looked for in this call: its file was parsed before, or just
    /// now.
    pub open spec fn delivers(self) -> bool {
        self.step is Deliver || (self.step is Parse && self.parsed is Some)
    }

    /// The steps are those that the functions' contracts state.
    pub open spec fn made(self, id: AudioFileStreamID) -> bool {
        &&& audio(self.entered).audio_file_streams@.contains_key(id)
        &&& bytes_buffered(self.entered, self.buffered, id, self.bytes, self.step)
        &&& if self.step is Parse {
            &&& stream_kept(self.buffered, self.asked, id)
            &&& parse_answered(
                self.asked,
                self.answered,
                id,
                self.parsed,
                ParseAttempt { ready: self.ready, listener: self.listener },
            )
            &&& if self.parsed is Some {
                &&& self.asked.wf()
                &&& stream_kept(self.answered, self.retelling, id)
                &&& self.retelling.mem.valid(self.listener->0.flags as int, 4)
                &&& told_again(self.retelling, self.retold, self.listener->0, self.again)
                &&& stream_kept(self.retold, self.delivering, id)
            } else {
                stream_kept(self.answered, self.left, id) && self.packets is None
            }
        } else {
            stream_kept(self.buffered, self.delivering, id) && self.listener is None && self.ready
        }
        &&& self.delivers() ==> {
            &&& delivery_done(self.delivering, self.delivered, id, self.packets)
            &&& stream_kept(self.delivered, self.left, id)
        }
    }

    /// The calls of the listener, each with the state that it is made in.
    pub open spec fn told(self) -> Seq<(Environment, ListenerCall)> {
        match self.listener {
            Some(first) => seq![(self.answered, first), (self.retold, self.again)],
            None => Seq::empty(),
        }
    }

    /// The bytes that the packet function was called with.
    pub open spec fn handed(self) -> Seq<u8> {
        match self.packets {
            Some(p) => self.delivered.mem@.subrange(p.data as int, p.data + p.num_bytes),
            None => Seq::empty(),
        }
    }
}

/// All calls on a stream, one after the other, from where it was opened on.
pub open spec fn calls_made(calls: Seq<StreamCall>, id: AudioFileStreamID) -> bool {
    &&& forall|i: int| 0 <= i < calls.len() ==> (#[trigger] calls[i]).made(id)
    &&& forall|i: int, j: int|
        #![trigger calls[i], calls[j]]
        0 <= i && j == i + 1 && j < calls.len() ==> stream_kept(calls[i].left, calls[j].entered, id)
    &&& calls.len() > 0 ==> {
        let h = stream_of(calls[0].entered, id);
        &&& h.buffer@ == Seq::<u8>::empty()
        &&& h.parsed_audio_file is None
        &&& h.bytes_delivered == 0
    }
}

/// What the first `n` calls were given.
pub open spec fn given_all(calls: Seq<StreamCall>, n: int) -> Seq<u8>
    decreases n,
{
    if n <= 0 {
        Seq::empty()
    } else {
        given_all(calls, n - 1) + calls[n - 1].bytes
    }
}

/// What the packet function was called with in the first `n` calls.
pub open spec fn handed_all(calls: Seq<StreamCall>, n: int) -> Seq<u8>
    decreases n,
{
    if n <= 0 {
        Seq::empty()
    } else {
        handed_all(calls, n - 1) + calls[n - 1].handed()
    }
}

/// What a stream knows of what it was given and has handed on.
pub open spec fn stream_consistent(
    h: AudioFileStreamHostObject,
    given: Seq<u8>,
    handed: Seq<u8>,
) -> bool {
    &&& h.buffer@ == given
    &&& h.bytes_delivered == handed.len()
    &&& handed.len() <= given.len()
    &&& handed == given.take(handed.len() as int)
    &&& h.parsed_audio_file is None ==> handed.len() == 0
    &&& h.parsed_audio_file is Some && h.parsed_audio_file->0.packet_size == 0 ==> handed.len() == 0
    &&& h.parsed_audio_file is Some && h.parsed_audio_file->0.packet_size > 0 ==> {
        let p = h.parsed_audio_file->0.packet_size as int;
        handed.len() == given.len() - given.len() as int % p
    }
}

/// Delivering after more bytes came.
proof fn lemma_deliver(
    b: AudioFileStreamHostObject,
    given: Seq<u8>,
    more: Seq<u8>,
    handed: Seq<u8>,
)
    requires
        b.parsed_audio_file is Some,
        b.parsed_audio_file->0.packet_size > 0,
        b.buffer@ == given + more,
        b.bytes_delivered == handed.len(),
        handed.len() <= given.len(),
        handed == given.take(handed.len() as int),
        handed.len() == 0 || handed.len() == given.len() - given.len() as int
            % b.parsed_audio_file->0.packet_size as int,
    ensures
        ({
            let p = b.parsed_audio_file->0.packet_size as int;
            let all = given + more;
            let n = undelivered(b, p);
            &&& n >= 0
            &&& handed.len() + n == all.len() - all.len() as int % p
            &&& handed.len() + n <= all.len()
            &&& handed + all.subrange(handed.len() as int, handed.len() + n) == all.take(
                handed.len() + n,
            )
            &&& n % p == 0
        }),
{
    let p = b.parsed_audio_file->0.packet_size as int;
    let g = given.len() as int;
    let all = given + more;
    let t = all.len() as int;
    vstd::arithmetic::div_mod::lemma_fundamental_div_mod(g, p);
    vstd::arithmetic::div_mod::lemma_fundamental_div_mod(t, p);
    vstd::arithmetic::div_mod::lemma_mod_bound(t, p);
    vstd::arithmetic::div_mod::lemma_mod_bound(g, p);
    vstd::arithmetic::div_mod::lemma_div_is_ordered(g, t, p);
    let q = t / p;
    let k = if handed.len() == 0 {
        0
    } else {
        g / p
    };
    assert(0 <= k <= q) by {
        vstd::arithmetic::div_mod::lemma_div_pos_is_pos(t, p);
    }
    assert(p * 0 == 0);
    assert(handed.len() == p * k);
    assert(p * k <= p * q) by (nonlinear_arith)
        requires
            0 <= k <= q,
            p > 0,
    ;
    let n = undelivered(b, p);
    assert(n == p * q - p * k);
    assert(p * q - p * k == p * (q - k)) by (nonlinear_arith);
    vstd::arithmetic::div_mod::lemma_mod_multiples_basic(q - k, p);
    assert((q - k) * p == p * (q - k)) by (nonlinear_arith);
    assert(handed + all.subrange(handed.len() as int, handed.len() + n) =~= all.take(
        handed.len() + n,
    ));
}

/// One call keeps a stream consistent.
proof fn lemma_call(c: StreamCall, id: AudioFileStreamID, given: Seq<u8>, handed: Seq<u8>)
    requires
        c.made(id),
        stream_consistent(stream_of(c.entered, id), given, handed),
    ensures
        stream_consistent(stream_of(c.left, id), given + c.bytes, handed + c.handed()),
        c.packets matches Some(p) ==> {
            let h = stream_of(c.left, id);
            let size = h.parsed_audio_file->0.packet_size as int;
            &&& h.parsed_audio_file is Some
            &&& size > 0
            &&& p.num_bytes > 0
            &&& p.num_bytes as int % size == 0
            &&& p.num_packets == p.num_bytes as int / size
            &&& p.func == h.packets_proc
            &&& p.client_data == h.client_data
        },
{
    let e = stream_of(c.entered, id);
    let m = stream_of(c.buffered, id);
    let all = given + c.bytes;
    assert(handed + Seq::<u8>::empty() =~= handed);
    assert(all.take(handed.len() as int) =~= given.take(handed.len() as int));
    if c.delivers() {
        let b = stream_of(c.delivering, id);
        assert(b.buffer@ == all);
        assert(b.bytes_delivered == handed.len());
        assert(b.parsed_audio_file is Some);
        let p = b.parsed_audio_file->0.packet_size as int;
        if p > 0 {
            assert(handed.len() == 0 || handed.len() == given.len() - given.len() as int % p);
            lemma_deliver(b, given, c.bytes, handed);
            let n = undelivered(b, p);
            let len = b.buffer.len();
            assert(b.buffer@.len() == len);
            if n > 0 {
                let call = c.packets->0;
                let data = b.buffer@.subrange(b.bytes_delivered as int, b.bytes_delivered + n);
                assert(c.delivered.mem@.subrange(
                    call.data as int,
                    call.data + call.num_bytes,
                ) =~= data);
            }
        }
    }
}

/// Over all calls, what was delivered is a prefix of what was given: nothing
/// until the bytes were parsed, and from then on all whole packets.
pub proof fn law_delivered_prefix(calls: Seq<StreamCall>, id: AudioFileStreamID, n: int)
    requires
        calls_made(calls, id),
        0 < n <= calls.len(),
    ensures
        ({
            let h = stream_of(calls[n - 1].left, id);
            let given = given_all(calls, n);
            let handed = handed_all(calls, n);
            &&& h.buffer@ == given
            &&& handed == given.take(handed.len() as int)
            &&& h.parsed_audio_file is None ==> handed.len() == 0
            &&& h.parsed_audio_file is Some && h.parsed_audio_file->0.packet_size > 0 ==> {
                let p = h.parsed_audio_file->0.packet_size as int;
                handed.len() == given.len() - given.len() as int % p
            }
        }),
        stream_consistent(
            stream_of(calls[n - 1].left, id),
            given_all(calls, n),
            handed_all(calls, n),
        ),
    decreases n,
{
    let c = calls[n - 1];
    assert(c.made(id));
    if n == 1 {
        assert(given_all(calls, 0) =~= Seq::empty());
        assert(handed_all(calls, 0) =~= Seq::empty());
        assert(Seq::<u8>::empty().take(0) =~= Seq::empty());
    } else {
        law_delivered_prefix(calls, id, n - 1);
        assert(stream_kept(calls[n - 2].left, calls[n - 1].entered, id));
    }
    lemma_call(c, id, given_all(calls, n - 1), handed_all(calls, n - 1));
}

/// Each call of the packet function gets a number of bytes above zero that are
/// whole packets, and the number of those packets.
pub proof fn law_packets_calls(calls: Seq<StreamCall>, id: AudioFileStreamID, k: int)
    requires
        calls_made(calls, id),
        0 <= k < calls.len(),
    ensures
        calls[k].packets matches Some(p) ==> {
            let h = stream_of(calls[k].left, id);
            let size = h.parsed_audio_file->0.packet_size as int;
            &&& h.parsed_audio_file is Some
            &&& size > 0
            &&& p.num_bytes > 0
            &&& p.num_bytes as int % size == 0
            &&& p.num_packets == p.num_bytes as int / size
            &&& p.func == h.packets_proc
            &&& p.client_data == h.client_data
        },
{
    let c = calls[k];
    assert(c.made(id));
    if k == 0 {
        assert(Seq::<u8>::empty().take(0) =~= Seq::empty());
        lemma_call(c, id, Seq::empty(), Seq::empty());
    } else {
        law_delivered_prefix(calls, id, k);
        assert(stream_kept(calls[k - 1].left, calls[k].entered, id));
        lemma_call(c, id, given_all(calls, k), handed_all(calls, k));
    }
}

/// The calls of the listener in the first `n` calls.
pub open spec fn told_all(calls: Seq<StreamCall>, n: int) -> Seq<(Environment, ListenerCall)>
    decreases n,
{
    if n <= 0 {
        Seq::empty()
    } else {
        told_all(calls, n - 1) + calls[n - 1].told()
    }
}

/// A call of the listener of the stream `id`, whose state is `h`: it is about
/// `property`, and the flags are clear where it is made.
pub open spec fn listener_told(
    told: (Environment, ListenerCall),
    h: AudioFileStreamHostObject,
    id: AudioFileStreamID,
    property: u32,
) -> bool {
    let call = told.1;
    &&& call.func == h.property_listener_proc
    &&& call.client_data == h.client_data
    &&& call.stream == id
    &&& call.property == property
    &&& le_u32(told.0.mem@, call.flags as int) == 0
}

/// When one call tells the listener, and what it does to the stream's file.
proof fn lemma_call_listener(c: StreamCall, id: AudioFileStreamID)
    requires
        c.made(id),
    ensures
        c.listener is Some <==> c.step is Parse && c.parsed is Some,
        c.step is Parse <==> stream_of(c.entered, id).parsed_audio_file is None,
        c.ready <==> stream_of(c.left, id).parsed_audio_file is Some,
        stream_of(c.left, id).parsed_audio_file is Some <==> (stream_of(
            c.entered,
            id,
        ).parsed_audio_file is Some || c.listener is Some),
        stream_of(c.left, id).property_listener_proc == stream_of(
            c.entered,
            id,
        ).property_listener_proc,
        stream_of(c.left, id).client_data == stream_of(c.entered, id).client_data,
        c.listener is Some ==> {
            let h = stream_of(c.entered, id);
            &&& c.told().len() == 2
            &&& listener_told(c.told()[0], h, id, kAudioFilePropertyDataFormat)
            &&& listener_told(c.told()[1], h, id, kAudioFileStreamProperty_ReadyToProducePackets)
        },
        c.step is Parse && c.listener is None ==> c.packets is None && stream_of(
            c.left,
            id,
        ).buffer@ == stream_of(c.entered, id).buffer@ + c.bytes,
{
    if c.listener is Some {
        let flags = c.listener->0.flags as int;
        lemma_le_bytes_4(0);
        assert(c.asked.mem.fits(flags, 4));
        assert(flags + 4 <= c.answered.mem@.len());
        assert(flags + 4 <= c.retold.mem@.len());
        assert forall|k: int| 0 <= k < 4 implies #[trigger] c.answered.mem@[flags + k] == 0
            && c.retold.mem@[flags + k] == 0 by {
            assert(c.answered.mem@[flags + k] == le_bytes(0, 4)[k]);
            assert(c.retold.mem@[flags + k] == le_bytes(0, 4)[k]);
        }
        assert(c.answered.mem@[flags + 0] == 0);
        assert(c.answered.mem@[flags + 1] == 0);
        assert(c.answered.mem@[flags + 2] == 0);
        assert(c.answered.mem@[flags + 3] == 0);
    }
}

/// Over all calls, a call says that the bytes have parsed exactly where they
/// did, in that call or before. The listener is called twice once they have
/// parsed, and not before: about the data format, then about packets being
/// ready, with the flags clear both times.
pub proof fn law_listener_twice(calls: Seq<StreamCall>, id: AudioFileStreamID, n: int)
    requires
        calls_made(calls, id),
        0 < n <= calls.len(),
    ensures
        ({
            let h = stream_of(calls[n - 1].left, id);
            let told = told_all(calls, n);
            &&& calls[n - 1].ready <==> h.parsed_audio_file is Some
            &&& if h.parsed_audio_file is Some {
                &&& told.len() == 2
                &&& listener_told(told[0], h, id, kAudioFilePropertyDataFormat)
                &&& listener_told(told[1], h, id, kAudioFileStreamProperty_ReadyToProducePackets)
            } else {
                told.len() == 0
            }
        }),
    decreases n,
{
    let last = calls[n - 1];
    lemma_call_listener(last, id);
    if n == 1 {
        assert(told_all(calls, 0) =~= Seq::empty());
    } else {
        law_listener_twice(calls, id, n - 1);
        assert(stream_kept(calls[n - 2].left, last.entered, id));
    }
    let before = told_all(calls, n - 1);
    if before.len() == 0 {
        assert(before + last.told() =~= last.told());
    } else {
        assert(before + last.told() =~= before);
    }
}

/// The listener is called in the one call that parses the bytes, and in no
/// other. A call that fails to parse calls nothing, and keeps the bytes.
pub proof fn law_listener_once(calls: Seq<StreamCall>, id: AudioFileStreamID, i: int, j: int)
    requires
        calls_made(calls, id),
        0 <= i < calls.len(),
        i < j < calls.len(),
    ensures
        calls[i].listener is Some <==> calls[i].step is Parse && calls[i].parsed is Some,
        calls[i].listener is Some ==> calls[j].listener is None,
        calls[i].listener is Some ==> stream_of(calls[j].entered, id).parsed_audio_file is Some,
        calls[i].step is Parse && calls[i].listener is None ==> calls[i].packets is None
            && stream_of(calls[i].left, id).buffer@ == stream_of(calls[i].entered, id).buffer@
            + calls[i].bytes,
    decreases j,
{
    lemma_call_listener(calls[i], id);
    lemma_call_listener(calls[j], id);
    lemma_call_listener(calls[j - 1], id);
    assert(stream_kept(calls[j - 1].left, calls[j].entered, id));
    if i < j - 1 {
        law_listener_once(calls, id, i, j - 1);
    }
}

} // verus!

use vstd::prelude::*;

verus! {

/// Sample rate of captured audio, in Hz.
pub const SAMPLE_RATE: usize = 16000;

/// Seconds of audio the ring buffer keeps.
pub const BUFFER_SECS: usize = 12;

/// Number of samples the ring buffer keeps.
pub const RING_CAPACITY: usize = SAMPLE_RATE * BUFFER_SECS;

/// Where audio is captured from.
#[derive(Debug, Clone, Copy, PartialEq, Eq, Structural)]
pub enum AudioSourceMode {
    Auto,
    Monitor,
    Mic,
}

/// The last `n` elements of `s`, or all of `s` when it is shorter.
pub open spec fn keep_last<T>(s: Seq<T>, n: nat) -> Seq<T> {
    if s.len() <= n {
        s
    } else {
        s.subrange(s.len() - n, s.len() as int)
    }
}

/// Fixed-capacity buffer of the most recent 16 kHz mono samples.
pub struct RingBuffer {
    data: Vec<i16>,
    write_idx: usize,
    count: usize,
}

impl View for RingBuffer {
    type V = Seq<i16>;

    /// The buffered samples, oldest first.
    closed spec fn view(&self) -> Seq<i16> {
        Seq::new(
            self.count as nat,
            |i: int| self.data@[(self.write_idx + RING_CAPACITY - self.count + i) % (RING_CAPACITY as int)],
        )
    }
}

impl RingBuffer {
    /// The storage holds the capacity, the indices are in range, and until
    /// the buffer first fills up the samples sit at the start of the storage.
    pub closed spec fn well_formed(&self) -> bool {
        &&& self.data@.len() == RING_CAPACITY
        &&& self.write_idx < RING_CAPACITY
        &&& self.count <= RING_CAPACITY
        &&& self.count < RING_CAPACITY ==> self.write_idx == self.count
    }

    /// An empty buffer.
    pub fn new() -> (r: Self)
        ensures
            r.well_formed(),
            r@ == Seq::<i16>::empty(),
    {
        let r = Self { data: vec![0i16; RING_CAPACITY], write_idx: 0, count: 0 };
        assert(r@ =~= Seq::<i16>::empty());
        r
    }

    #[verifier::spinoff_prover]
    proof fn lemma_push_one(old_buf: RingBuffer, new_buf: RingBuffer, x: i16)
        requires
            old_buf.well_formed(),
            new_buf.data@ == old_buf.data@.update(old_buf.write_idx as int, x),
            new_buf.write_idx == (old_buf.write_idx + 1) % (RING_CAPACITY as int),
            new_buf.count == if old_buf.count < RING_CAPACITY {
                old_buf.count + 1
            } else {
                old_buf.count as int
            },
        ensures
            new_buf.well_formed(),
            new_buf@ == keep_last(old_buf@.push(x), RING_CAPACITY as nat),
    {
        let cap = RING_CAPACITY as int;
        let w = old_buf.write_idx as int;
        let c = old_buf.count as int;
        let pushed = old_buf@.push(x);
        assert(cap == 192000);
        if c < cap {
            if c + 1 < cap {
                assert((w + 1) % cap == w + 1);
            } else {
                assert((w + 1) % cap == 0);
            }
            assert forall|i: int| 0 <= i < new_buf.count implies #[trigger] new_buf@[i] == pushed[i] by {
                if c + 1 < cap {
                    assert((cap + i) % cap == i);
                } else {
                    assert(i % cap == i);
                }
                assert((new_buf.write_idx + cap - new_buf.count + i) % cap == i);
                assert((w + cap - c + i) % cap == i) by {
                    if i < c {
                        assert((cap + i) % cap == i);
                    }
                };
            }
            assert(new_buf@ =~= keep_last(pushed, RING_CAPACITY as nat));
        } else {
            let kept = keep_last(pushed, RING_CAPACITY as nat);
            assert forall|i: int| 0 <= i < cap implies #[trigger] new_buf@[i] == kept[i] by {
                let j = (new_buf.write_idx + cap - new_buf.count + i) % cap;
                if w + 1 + i < cap {
                    assert(j == w + 1 + i);
                    assert((w + cap - c + i + 1) % cap == w + i + 1);
                } else if w + 1 + i < 2 * cap - 1 {
                    assert(j == w + 1 + i - cap);
                    assert((w + cap - c + i + 1) % cap == w + i + 1 - cap);
                } else {
                    assert(j == w);
                }
            }
            assert(new_buf@ =~= kept);
        }
    }

    /// Appends `samples`, dropping the oldest samples beyond the capacity.
    pub fn push_slice(&mut self, samples: &[i16])
        requires
            old(self).well_formed(),
        ensures
            final(self).well_formed(),
            final(self)@ == keep_last(old(self)@ + samples@, RING_CAPACITY as nat),
    {
        let ghost start = self@;
        let mut i: usize = 0;
        while i < samples.len()
            invariant
                i <= samples.len(),
                self.well_formed(),
                self@ == keep_last(start + samples@.take(i as int), RING_CAPACITY as nat),
            decreases samples.len() - i,
        {
            let s = samples[i];
            let ghost before = *self;
            self.data.set(self.write_idx, s);
            self.write_idx = (self.write_idx + 1) % RING_CAPACITY;
            if self.count < RING_CAPACITY {
                self.count = self.count + 1;
            }
            proof {
                Self::lemma_push_one(before, *self, s);
                let h = start + samples@.take(i as int);
                lemma_keep_last_push(h, s, RING_CAPACITY as nat);
                assert(start + samples@.take(i + 1) =~= h.push(s));
            }
            i = i + 1;
        }
        assert(samples@.take(samples.len() as int) =~= samples@);
    }

    /// The most recent `min(num_samples, count)` samples, oldest first.
    #[verifier::spinoff_prover]
    #[verifier::rlimit(40)]
    pub fn extract_recent(&self, num_samples: usize) -> (out: Vec<i16>)
        requires
            self.well_formed(),
        ensures
            out@ == keep_last(self@, num_samples as nat),
    {
        let n = if num_samples < self.count {
            num_samples
        } else {
            self.count
        };
        let mut out: Vec<i16> = Vec::with_capacity(n);
        let ghost cap = RING_CAPACITY as int;
        if self.count < RING_CAPACITY {
            let start = self.write_idx.saturating_sub(n);
            out.extend_from_slice(&self.data[start..self.write_idx]);
            assert forall|i: int| 0 <= i < n implies #[trigger] out@[i] == keep_last(self@, num_samples as nat)[i] by {
                assert((self.write_idx + cap - self.count + (self.count - n + i)) % cap == start + i);
            }
        } else {
            let start_idx = (self.write_idx + RING_CAPACITY - n) % RING_CAPACITY;
            if start_idx + n <= RING_CAPACITY {
                out.extend_from_slice(&self.data[start_idx..start_idx + n]);
                assert forall|i: int| 0 <= i < n implies #[trigger] out@[i] == keep_last(self@, num_samples as nat)[i] by {
                    assert((self.write_idx + (cap - n + i)) % cap == start_idx + i);
                }
            } else {
                let first_part = RING_CAPACITY - start_idx;
                let second_part = n - first_part;
                out.extend_from_slice(&self.data[start_idx..RING_CAPACITY]);
                out.extend_from_slice(&self.data[0..second_part]);
                assert forall|i: int| 0 <= i < n implies #[trigger] out@[i] == keep_last(self@, num_samples as nat)[i] by {
                    if i < first_part {
                        assert((self.write_idx + (cap - n + i)) % cap == start_idx + i);
                    } else {
                        assert((self.write_idx + (cap - n + i)) % cap == i - first_part);
                    }
                }
            }
        }
        assert(out@ =~= keep_last(self@, num_samples as nat));
        out
    }

    /// Number of buffered samples.
    pub fn count(&self) -> (c: usize)
        requires
            self.well_formed(),
        ensures
            c == self@.len(),
    {
        self.count
    }

    /// Forgets every buffered sample.
    pub fn clear(&mut self)
        requires
            old(self).well_formed(),
        ensures
            final(self).well_formed(),
            final(self)@ == Seq::<i16>::empty(),
    {
        self.write_idx = 0;
        self.count = 0;
        assert(self@ =~= Seq::<i16>::empty());
    }
}

/// Keeping the last `n` of a sequence and then of it with one more element
/// is keeping the last `n` of the longer sequence.
proof fn lemma_keep_last_push<T>(s: Seq<T>, x: T, n: nat)
    requires
        n > 0,
    ensures
        keep_last(keep_last(s, n).push(x), n) == keep_last(s.push(x), n),
{
    assert(keep_last(keep_last(s, n).push(x), n) =~= keep_last(s.push(x), n));
}


/// Law of the ring buffer as a history: the samples that `extract_recent(n)`
/// returns after samples were pushed are the last `min(n, capacity)` samples
/// of everything pushed, and `count` is the length of that history up to
/// the capacity.
pub proof fn lemma_recent_samples_are_history_suffix(history: Seq<i16>, n: nat)
    ensures
        keep_last(keep_last(history, RING_CAPACITY as nat), n) == keep_last(
            history,
            if n < RING_CAPACITY {
                n
            } else {
                RING_CAPACITY as nat
            },
        ),
        keep_last(history, RING_CAPACITY as nat).len() == if history.len() < RING_CAPACITY {
            history.len()
        } else {
            RING_CAPACITY as nat
        },
{
    let m: nat = if n < RING_CAPACITY {
        n
    } else {
        RING_CAPACITY as nat
    };
    assert(keep_last(keep_last(history, RING_CAPACITY as nat), n) =~= keep_last(history, m));
}

/// A call that changes a ring buffer: `push_slice` with the given samples,
/// or `clear`.
pub enum RingCall {
    PushSlice(Seq<i16>),
    Clear,
}

/// The samples that a buffer holds after `RingBuffer::new` and then `calls`,
/// in order, as the contracts of `new`, `push_slice` and `clear` give them.
pub open spec fn ring_after(calls: Seq<RingCall>) -> Seq<i16>
    decreases calls.len(),
{
    if calls.len() == 0 {
        seq![]
    } else {
        match calls.last() {
            RingCall::PushSlice(samples) => keep_last(
                ring_after(calls.drop_last()) + samples,
                RING_CAPACITY as nat,
            ),
            RingCall::Clear => seq![],
        }
    }
}

/// Every sample pushed by `calls` since the last `clear` (or since the
/// start), in order.
pub open spec fn pushed_since_clear(calls: Seq<RingCall>) -> Seq<i16>
    decreases calls.len(),
{
    if calls.len() == 0 {
        seq![]
    } else {
        match calls.last() {
            RingCall::PushSlice(samples) => pushed_since_clear(calls.drop_last()) + samples,
            RingCall::Clear => seq![],
        }
    }
}

proof fn lemma_keep_last_append<T>(p: Seq<T>, s: Seq<T>, n: nat)
    ensures
        keep_last(keep_last(p, n) + s, n) == keep_last(p + s, n),
{
    if p.len() > n {
        let k = keep_last(p, n);
        assert(keep_last(k + s, n) =~= keep_last(p + s, n)) by {
            assert forall|i: int| 0 <= i < keep_last(p + s, n).len() implies #[trigger] keep_last(
                k + s,
                n,
            )[i] == keep_last(p + s, n)[i] by {
                if i + s.len() < n {
                    assert(keep_last(k + s, n)[i] == k[s.len() + i]);
                }
            }
        }
    } else {
        assert(keep_last(p, n) == p);
    }
}

/// Law of the ring buffer over any sequence of calls: after `new` and then
/// any pushes and clears, the buffer holds the last samples pushed since the
/// last clear, at most its capacity of them, so that `count` is the number
/// of samples pushed since the last clear, up to the capacity.
pub proof fn lemma_ring_holds_recent_pushes(calls: Seq<RingCall>)
    ensures
        ring_after(calls) == keep_last(pushed_since_clear(calls), RING_CAPACITY as nat),
        ring_after(calls).len() == if pushed_since_clear(calls).len() < RING_CAPACITY {
            pushed_since_clear(calls).len()
        } else {
            RING_CAPACITY as nat
        },
    decreases calls.len(),
{
    if calls.len() > 0 {
        lemma_ring_holds_recent_pushes(calls.drop_last());
        match calls.last() {
            RingCall::PushSlice(samples) => {
                lemma_keep_last_append(
                    pushed_since_clear(calls.drop_last()),
                    samples,
                    RING_CAPACITY as nat,
                );
            },
            RingCall::Clear => {},
        }
    }
}

/// Value of the little-endian 16-bit two's complement sample `lo, hi`.
pub open spec fn le_i16_value(lo: u8, hi: u8) -> int {
    let v = hi * 256 + lo;
    if v >= 32768 {
        v - 65536
    } else {
        v
    }
}

/// Decodes raw signed 16-bit little-endian PCM: one sample per two bytes,
/// a trailing odd byte ignored.
pub fn decode_pcm_s16le(bytes: &[u8]) -> (samples: Vec<i16>)
    ensures
        samples@.len() == bytes@.len() / 2,
        forall|i: int|
            0 <= i < samples@.len() ==> #[trigger] samples@[i] as int == le_i16_value(
                bytes@[2 * i],
                bytes@[2 * i + 1],
            ),
{
    let num_samples = bytes.len() / 2;
    let mut samples: Vec<i16> = Vec::with_capacity(num_samples);
    let mut i: usize = 0;
    while i < num_samples
        invariant
            i <= num_samples,
            num_samples == bytes@.len() / 2,
            samples@.len() == i,
            forall|j: int|
                0 <= j < i ==> #[trigger] samples@[j] as int == le_i16_value(
                    bytes@[2 * j],
                    bytes@[2 * j + 1],
                ),
        decreases num_samples - i,
    {
        assert(2 * i + 1 < bytes.len());
        let idx: usize = 2 * i;
        let lo = bytes[idx];
        let hi = bytes[idx + 1];
        let v: i32 = (hi as i32) * 256 + (lo as i32);
        let s: i32 = if v >= 32768 {
            v - 65536
        } else {
            v
        };
        samples.push(s as i16);
        i = i + 1;
    }
    samples
}

/// The samples of a raw signed 16-bit little-endian byte stream: one per
/// complete pair of bytes, in order.
pub open spec fn pcm_samples(bytes: Seq<u8>) -> Seq<i16> {
    Seq::new(bytes.len() / 2, |i: int| le_i16_value(bytes[2 * i], bytes[2 * i + 1]) as i16)
}

/// The trailing byte of a stream with an odd number of bytes, which starts
/// the next sample.
pub open spec fn pcm_leftover(bytes: Seq<u8>) -> Seq<u8> {
    bytes.skip(bytes.len() - bytes.len() % 2)
}

/// All chunks of a stream, in order.
pub open spec fn concat_chunks(chunks: Seq<Seq<u8>>) -> Seq<u8>
    decreases chunks.len(),
{
    if chunks.len() == 0 {
        seq![]
    } else {
        concat_chunks(chunks.drop_last()) + chunks.last()
    }
}

/// Samples and pending byte after feeding the chunks one by one to a fresh
/// `PcmDecoder`: each call decodes its pending byte followed by its chunk.
pub open spec fn decode_chunks(chunks: Seq<Seq<u8>>) -> (Seq<i16>, Seq<u8>)
    decreases chunks.len(),
{
    if chunks.len() == 0 {
        (seq![], seq![])
    } else {
        let (samples, pending) = decode_chunks(chunks.drop_last());
        let all = pending + chunks.last();
        (samples + pcm_samples(all), pcm_leftover(all))
    }
}

/// Decoding two consecutive parts of a stream, the second with the first's
/// leftover byte in front, gives the samples of the whole.
pub proof fn lemma_pcm_split(a: Seq<u8>, b: Seq<u8>)
    ensures
        pcm_samples(a) + pcm_samples(pcm_leftover(a) + b) == pcm_samples(a + b),
        pcm_leftover(pcm_leftover(a) + b) == pcm_leftover(a + b),
{
    let k: int = (a.len() / 2) as int;
    let whole = a + b;
    let rest = pcm_leftover(a) + b;
    assert(rest =~= whole.skip(2 * k));
    assert(rest.len() / 2 + k == whole.len() / 2);
    assert forall|i: int| 0 <= i < whole.len() / 2 implies #[trigger] (pcm_samples(a) + pcm_samples(
        rest,
    ))[i] == pcm_samples(whole)[i] by {
        if i >= k {
            assert(rest[2 * (i - k)] == whole[2 * i]);
            assert(rest[2 * (i - k) + 1] == whole[2 * i + 1]);
        }
    }
    assert(pcm_samples(a) + pcm_samples(rest) =~= pcm_samples(whole));
    assert(pcm_leftover(rest) =~= pcm_leftover(whole));
}

/// Law of capture decoding: however the byte stream is cut into reads, the
/// samples a `PcmDecoder` hands out are the samples of the whole stream,
/// none dropped, repeated or misaligned, and the pending byte is the
/// stream's unpaired last byte.
pub proof fn lemma_chunked_decoding_is_stream_decoding(chunks: Seq<Seq<u8>>)
    ensures
        decode_chunks(chunks).0 == pcm_samples(concat_chunks(chunks)),
        decode_chunks(chunks).1 == pcm_leftover(concat_chunks(chunks)),
    decreases chunks.len(),
{
    if chunks.len() == 0 {
        assert(pcm_samples(Seq::<u8>::empty()) =~= Seq::<i16>::empty());
        assert(pcm_leftover(Seq::<u8>::empty()) =~= Seq::<u8>::empty());
    } else {
        let front = chunks.drop_last();
        lemma_chunked_decoding_is_stream_decoding(front);
        lemma_pcm_split(concat_chunks(front), chunks.last());
        let (s, p) = decode_chunks(front);
        assert(s + pcm_samples(p + chunks.last()) =~= pcm_samples(concat_chunks(front)) + pcm_samples(
            pcm_leftover(concat_chunks(front)) + chunks.last(),
        ));
    }
}

/// Decoder of a raw signed 16-bit little-endian PCM stream that arrives in
/// reads of any length: a byte left unpaired by one read is kept and
/// paired with the first byte of the next.
pub struct PcmDecoder {
    pending: Option<u8>,
}

impl PcmDecoder {
    /// The byte waiting for its partner, if any.
    pub closed spec fn pending_bytes(&self) -> Seq<u8> {
        match self.pending {
            Some(b) => seq![b],
            None => seq![],
        }
    }

    /// A decoder at the start of a stream.
    pub fn new() -> (d: Self)
        ensures
            d.pending_bytes() == Seq::<u8>::empty(),
    {
        PcmDecoder { pending: None }
    }

    /// Decodes the next read of the stream: the samples of the pending byte
    /// followed by `chunk`, keeping an unpaired last byte for the next read.
    pub fn push_bytes(&mut self, chunk: &[u8]) -> (samples: Vec<i16>)
        ensures
            samples@ == pcm_samples(old(self).pending_bytes() + chunk@),
            final(self).pending_bytes() == pcm_leftover(old(self).pending_bytes() + chunk@),
    {
        let ghost all = self.pending_bytes() + chunk@;
        let mut bytes: Vec<u8> = Vec::new();
        match self.pending {
            Some(b) => bytes.push(b),
            None => {},
        }
        let mut i: usize = 0;
        let ghost start = bytes@;
        while i < chunk.len()
            invariant
                i <= chunk.len(),
                bytes@ == start + chunk@.take(i as int),
            decreases chunk.len() - i,
        {
            bytes.push(chunk[i]);
            assert(chunk@.take(i + 1) =~= chunk@.take(i as int).push(chunk@[i as int]));
            i = i + 1;
        }
        assert(chunk@.take(chunk.len() as int) =~= chunk@);
        assert(bytes@ =~= all);
        let samples = decode_pcm_s16le(bytes.as_slice());
        assert(samples@ =~= pcm_samples(all));
        if bytes.len() % 2 == 1 {
            self.pending = Some(bytes[bytes.len() - 1]);
            assert(self.pending_bytes() =~= pcm_leftover(all));
        } else {
            self.pending = None;
            assert(self.pending_bytes() =~= pcm_leftover(all));
        }
        samples
    }
}

/// Source of the next capture attempt. A fixed source is always used;
/// `Auto` uses the default sink's monitor (desktop playback) and falls back
/// to the microphone for one attempt right after an attempt on the monitor
/// failed.
pub fn attempt_source(mode: AudioSourceMode, monitor_attempt_failed: bool) -> (source: AudioSourceMode)
    ensures
        mode == AudioSourceMode::Monitor ==> source == AudioSourceMode::Monitor,
        mode == AudioSourceMode::Mic ==> source == AudioSourceMode::Mic,
        mode == AudioSourceMode::Auto ==> source == if monitor_attempt_failed {
            AudioSourceMode::Mic
        } else {
            AudioSourceMode::Monitor
        },
{
    match mode {
        AudioSourceMode::Monitor => AudioSourceMode::Monitor,
        AudioSourceMode::Mic => AudioSourceMode::Mic,
        AudioSourceMode::Auto => if monitor_attempt_failed {
            AudioSourceMode::Mic
        } else {
            AudioSourceMode::Monitor
        },
    }
}

/// Whether an attempt on `source` counts as a failed attempt on the monitor:
/// it was on the monitor and delivered no audio (a capture process that
/// could not be started delivers none).
pub fn failed_monitor_attempt(source: AudioSourceMode, received_audio: bool) -> (failed: bool)
    ensures
        failed == (source == AudioSourceMode::Monitor && !received_audio),
{
    match source {
        AudioSourceMode::Monitor => !received_audio,
        _ => false,
    }
}

/// Arguments of the `pw-record` invocation that captures from `mode`:
/// the default sink's monitor for `Auto` and `Monitor`, the default source
/// for `Mic`, always as 16 kHz mono signed 16-bit samples on standard output.
pub fn capture_command_args(mode: AudioSourceMode) -> (args: Vec<&'static str>)
    ensures
        args@.len() == 9,
        mode == AudioSourceMode::Mic ==> args@[0]@ == "--target"@ && args@[1]@
            == "@DEFAULT_AUDIO_SOURCE@"@,
        mode != AudioSourceMode::Mic ==> args@[0]@ == "-P"@ && args@[1]@
            == "stream.capture.sink=true"@,
        args@[2]@ == "--format"@,
        args@[3]@ == "s16"@,
        args@[4]@ == "--rate"@,
        args@[5]@ == "16000"@,
        args@[6]@ == "--channels"@,
        args@[7]@ == "1"@,
        args@[8]@ == "-"@,
{
    let mut args: Vec<&'static str> = Vec::new();
    match mode {
        AudioSourceMode::Monitor | AudioSourceMode::Auto => {
            args.push("-P");
            args.push("stream.capture.sink=true");
        },
        AudioSourceMode::Mic => {
            args.push("--target");
            args.push("@DEFAULT_AUDIO_SOURCE@");
        },
    }
    args.push("--format");
    args.push("s16");
    args.push("--rate");
    args.push("16000");
    args.push("--channels");
    args.push("1");
    args.push("-");
    args
}

} // verus!

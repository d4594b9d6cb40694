//! The sound card driver: streams of samples, mixed into one.
use vstd::prelude::*;

use crate::api::io::{IoError, IoResult};
use crate::hardware::serial::PortWrite;

verus! {

/// Samples a second.
pub const SAMPLE_RATE: u16 = 22050;
/// The size of the buffer that the card plays from, in halves.
pub const DMA_BUFFER_BYTES: usize = 4096;
pub const DMA_HALF_BYTES: usize = 2048;
pub const DMA_HALF_SAMPLES: usize = 1024;
/// How many streams there can be at once.
pub const MAX_STREAMS: usize = 8;
/// The sum of so many samples fits in 32 bits.
pub const MIX_LIMIT: usize = 0x1_0000;
/// The size of the ring of a stream, in samples.
pub const RING_SAMPLES: usize = 8192;

/// The offset of the port that commands are written to.
pub const DSP_RESET: u16 = 0x06;
pub const DSP_READ: u16 = 0x0A;
pub const DSP_WRITE: u16 = 0x0C;
pub const DSP_READ_STATUS: u16 = 0x0E;
pub const DSP_ACK_16: u16 = 0x0F;

pub const CMD_SET_SAMPLE_RATE: u8 = 0x41;
pub const CMD_PLAY_16BIT_AUTO: u8 = 0xB6;
pub const CMD_STOP_16BIT: u8 = 0xD5;
pub const CMD_RESUME_16BIT: u8 = 0xD6;
pub const CMD_GET_VERSION: u8 = 0xE1;

/// The sound processor at a base port.
#[derive(Clone, Copy, PartialEq, Eq, Structural, Debug)]
pub struct Dsp {
    pub base: u16,
}

impl Dsp {
    pub fn new(base: u16) -> (r: Self)
        ensures
            r.base == base,
    {
        Dsp { base }
    }

    /// A port of the processor.
    pub fn port(&self, offset: u16) -> (r: u16)
        requires
            self.base + offset <= u16::MAX,
        ensures
            r == self.base + offset,
    {
        self.base + offset
    }

    /// Whether the processor answered a reset: its status says that a byte is there,
    /// and the byte is the right one.
    pub fn reset(status: u8, data: u8) -> (r: bool)
        ensures
            r == (status >= 0x80 && data == 0xAA),
    {
        status >= 0x80 && data == 0xAA
    }

    /// Whether the processor takes a command.
    pub fn ready_for_command(status: u8) -> (r: bool)
        ensures
            r == (status < 0x80),
    {
        status < 0x80
    }

    /// The command that asks for the version, which then is read in two bytes.
    pub fn get_version(&self) -> (r: u8)
        ensures
            r == CMD_GET_VERSION,
    {
        CMD_GET_VERSION
    }

    /// The command for the number of samples a second, the high byte first.
    pub fn set_sample_rate(&self, rate: u16) -> (r: Vec<u8>)
        ensures
            r@ == seq![CMD_SET_SAMPLE_RATE, (rate / 256) as u8, (rate % 256) as u8],
    {
        let r: Vec<u8> = vec![CMD_SET_SAMPLE_RATE, (rate / 256) as u8, (rate % 256) as u8];
        assert(r@ =~= seq![CMD_SET_SAMPLE_RATE, (rate / 256) as u8, (rate % 256) as u8]);
        r
    }

    /// The command to play signed samples of one channel without end, with an interrupt
    /// after every half of the buffer. The length is one less than the samples, the low
    /// byte first.
    pub fn start_playback_16bit(&self, half_buffer_samples: u16) -> (r: Vec<u8>)
        requires
            half_buffer_samples > 0,
        ensures
            ({
                let count = half_buffer_samples - 1;
                r@ == seq![
                    CMD_PLAY_16BIT_AUTO, 0x10u8, (count % 256) as u8, (count / 256) as u8,
                ]
            }),
    {
        let count: u16 = half_buffer_samples - 1;
        let r: Vec<u8> = vec![
            CMD_PLAY_16BIT_AUTO,
            0x10,
            (count % 256) as u8,
            (count / 256) as u8,
        ];
        assert(r@ =~= seq![CMD_PLAY_16BIT_AUTO, 0x10u8, (count % 256) as u8, (count / 256) as u8]);
        r
    }

    /// The port whose reading tells the processor that its interrupt was seen.
    pub fn ack_irq_16(&self) -> (r: u16)
        requires
            self.base + DSP_ACK_16 <= u16::MAX,
        ensures
            r == self.base + DSP_ACK_16,
    {
        self.port(DSP_ACK_16)
    }

    /// The command to stop.
    pub fn stop(&self) -> (r: u8)
        ensures
            r == CMD_STOP_16BIT,
    {
        CMD_STOP_16BIT
    }

    /// The command to go on.
    pub fn resume(&self) -> (r: u8)
        ensures
            r == CMD_RESUME_16BIT,
    {
        CMD_RESUME_16BIT
    }
}

/// Whether a processor of this version can play: the fourth and later can.
pub fn version_supported(major: u8) -> (r: bool)
    ensures
        r == (major >= 4),
{
    major >= 4
}

/// A write that waits for room: the samples that have still to go, the size of the
/// whole in bytes and how many of them went.
pub struct PendingWrite {
    pub request_id: u32,
    pub samples: Vec<i16>,
    pub buffer_len: usize,
    pub bytes_written: usize,
}

/// A stream: a ring of samples, and a write that waits.
pub struct AudioStream {
    pub buffer: Vec<i16>,
    pub write_pos: usize,
    pub read_pos: usize,
    pub pending_write: Option<PendingWrite>,
}

impl AudioStream {
    pub open spec fn wf(&self) -> bool {
        self.buffer@.len() == RING_SAMPLES && self.write_pos < RING_SAMPLES && self.read_pos
            < RING_SAMPLES
    }

    pub open spec fn count(&self) -> int {
        if self.write_pos >= self.read_pos {
            self.write_pos - self.read_pos
        } else {
            self.write_pos + RING_SAMPLES - self.read_pos
        }
    }

    pub open spec fn index(&self, i: int) -> int {
        if self.read_pos + i < RING_SAMPLES {
            self.read_pos + i
        } else {
            self.read_pos + i - RING_SAMPLES
        }
    }

    /// The samples to be played, the next first.
    pub open spec fn waiting(&self) -> Seq<i16> {
        Seq::new(self.count() as nat, |i: int| self.buffer@[self.index(i)])
    }

    pub fn new() -> (r: Self)
        ensures
            r.wf(),
            r.waiting() == Seq::<i16>::empty(),
            r.pending_write is None,
    {
        let r: AudioStream = AudioStream {
            buffer: vec![0i16; RING_SAMPLES],
            write_pos: 0,
            read_pos: 0,
            pending_write: None,
        };
        assert(r.waiting() =~= Seq::<i16>::empty());
        r
    }

    /// How many samples there are.
    pub fn available(&self) -> (r: usize)
        requires
            self.wf(),
        ensures
            r == self.waiting().len(),
    {
        if self.write_pos >= self.read_pos {
            self.write_pos - self.read_pos
        } else {
            self.write_pos + RING_SAMPLES - self.read_pos
        }
    }

    /// How many samples there is room for: the ring holds one less than its size.
    pub fn space(&self) -> (r: usize)
        requires
            self.wf(),
        ensures
            r == RING_SAMPLES - 1 - self.waiting().len(),
    {
        RING_SAMPLES - 1 - self.available()
    }

    /// Add samples, as many as there is room for. Gives their number.
    pub fn write_samples(&mut self, samples: &[i16]) -> (r: usize)
        requires
            old(self).wf(),
        ensures
            final(self).wf(),
            r == (if samples@.len() < RING_SAMPLES - 1 - old(self).waiting().len() {
                samples@.len() as int
            } else {
                RING_SAMPLES - 1 - old(self).waiting().len()
            }),
            final(self).waiting() == old(self).waiting() + samples@.subrange(0, r as int),
            final(self).pending_write == old(self).pending_write,
    {
        let space: usize = self.space();
        let count: usize = if samples.len() < space { samples.len() } else { space };
        let mut i: usize = 0;
        let ghost before = self.waiting();
        assert(before + samples@.subrange(0, 0) =~= before);
        while i < count
            invariant
                self.wf(),
                i <= count <= samples@.len(),
                before == old(self).waiting(),
                before.len() + count <= RING_SAMPLES - 1,
                self.waiting() == before + samples@.subrange(0, i as int),
                self.pending_write == old(self).pending_write,
            decreases count - i,
        {
            let ghost mid = *self;
            assert(mid.waiting().len() == before.len() + i);
            let slot: usize = self.write_pos;
            self.buffer.set(slot, samples[i]);
            self.write_pos = if slot + 1 == RING_SAMPLES { 0 } else { slot + 1 };
            proof {
                assert forall|k: int| 0 <= k < mid.count() implies self.waiting()[k]
                    == mid.waiting()[k] by {
                    assert(self.index(k) == mid.index(k));
                    assert(mid.index(k) != slot);
                }
                assert(self.index(mid.count()) == slot);
                assert(self.waiting() =~= mid.waiting().push(samples@[i as int]));
                assert(self.waiting() =~= before + samples@.subrange(0, i + 1));
            }
            i += 1;
        }
        count
    }

    /// Take the next sample: silence where there is none.
    pub fn read_sample(&mut self) -> (r: i16)
        requires
            old(self).wf(),
        ensures
            final(self).wf(),
            old(self).waiting().len() == 0 ==> r == 0 && final(self).waiting() == old(self).waiting(),
            old(self).waiting().len() > 0 ==> r == old(self).waiting()[0] && final(self).waiting()
                == old(self).waiting().skip(1),
            final(self).pending_write == old(self).pending_write,
    {
        if self.read_pos == self.write_pos {
            return 0;
        }
        let ghost before = *self;
        let sample: i16 = self.buffer[self.read_pos];
        self.read_pos = if self.read_pos + 1 == RING_SAMPLES { 0 } else { self.read_pos + 1 };
        proof {
            assert(before.index(0) == before.read_pos);
            assert forall|k: int| 0 <= k < self.count() implies self.waiting()[k]
                == before.waiting()[k + 1] by {
                assert(self.index(k) == before.index(k + 1));
            }
            assert(self.waiting() =~= before.waiting().skip(1));
        }
        sample
    }

    pub fn is_empty(&self) -> (r: bool)
        requires
            self.wf(),
        ensures
            r == (self.waiting().len() == 0),
    {
        self.read_pos == self.write_pos
    }
}

/// The sample of a stream at a position: silence after its end.
pub open spec fn sample_at(s: Option<Seq<i16>>, k: int) -> int {
    match s {
        Some(w) => if k < w.len() { w[k] as int } else { 0 },
        None => 0,
    }
}

/// The sum of all streams at a position.
pub open spec fn sum_at(streams: Seq<Option<Seq<i16>>>, k: int) -> int
    decreases streams.len(),
{
    if streams.len() == 0 {
        0
    } else {
        sum_at(streams.drop_last(), k) + sample_at(streams.last(), k)
    }
}

/// A sum as a sample: what is too loud is cut off.
pub open spec fn clamped(x: int) -> i16 {
    if x < -32768 {
        -32768i16
    } else if x > 32767 {
        32767i16
    } else {
        x as i16
    }
}

/// What is left of a stream after some samples.
pub open spec fn after_playing(s: Option<Seq<i16>>, n: int) -> Option<Seq<i16>> {
    match s {
        Some(w) => Some(if n < w.len() { w.skip(n) } else { Seq::empty() }),
        None => None,
    }
}

pub open spec fn streams_wf(streams: Seq<Option<AudioStream>>) -> bool {
    forall|i: int| 0 <= i < streams.len() ==> ((#[trigger] streams[i]) matches Some(s) ==> s.wf())
}

pub open spec fn stream_model(s: Option<AudioStream>) -> Option<Seq<i16>> {
    match s {
        Some(s) => Some(s.waiting()),
        None => None,
    }
}

pub open spec fn streams_model(streams: Seq<Option<AudioStream>>) -> Seq<Option<Seq<i16>>> {
    Seq::new(streams.len(), |i: int| stream_model(streams[i]))
}

/// Which writes wait.
pub open spec fn writes_of(streams: Seq<Option<AudioStream>>) -> Seq<Option<PendingWrite>> {
    Seq::new(
        streams.len(),
        |i: int|
            match streams[i] {
                Some(s) => s.pending_write,
                None => None,
            },
    )
}

proof fn lemma_sum_bound(streams: Seq<Option<Seq<i16>>>, k: int)
    requires
        k >= 0,
    ensures
        -32768 * streams.len() <= sum_at(streams, k) <= 32767 * streams.len(),
    decreases streams.len(),
{
    if streams.len() > 0 {
        lemma_sum_bound(streams.drop_last(), k);
    }
}

/// Take one sample of a stream, and silence where there is none.
fn take_sample(streams: &mut Vec<Option<AudioStream>>, i: usize) -> (r: i16)
    requires
        i < old(streams)@.len(),
        streams_wf(old(streams)@),
    ensures
        streams_wf(final(streams)@),
        final(streams)@.len() == old(streams)@.len(),
        r == sample_at(stream_model(old(streams)@[i as int]), 0),
        stream_model(final(streams)@[i as int]) == after_playing(
            stream_model(old(streams)@[i as int]), 1,
        ),
        forall|k: int|
            0 <= k < old(streams)@.len() && k != i ==> #[trigger] final(streams)@[k] == old(streams)@[k],
        writes_of(final(streams)@) == writes_of(old(streams)@),
{
    let mut slot: Option<AudioStream> = None;
    core::mem::swap(&mut streams[i], &mut slot);
    let mut sample: i16 = 0;
    let ghost before = old(streams)@[i as int];
    match slot {
        Some(mut stream) => {
            assert(before == Some(stream));
            let ghost w = stream.waiting();
            sample = stream.read_sample();
            proof {
                assert(w.skip(0) =~= w);
                if w.len() <= 1 {
                    assert(stream.waiting() =~= Seq::empty());
                }
            }
            streams[i] = Some(stream);
        },
        None => {
            assert(streams@ =~= old(streams)@);
        },
    }
    assert(writes_of(streams@) =~= writes_of(old(streams)@));
    sample
}

/// Mix one sample of every stream.
fn mix_one(streams: &mut Vec<Option<AudioStream>>) -> (r: i16)
    requires
        streams_wf(old(streams)@),
        old(streams)@.len() <= MIX_LIMIT,
    ensures
        streams_wf(final(streams)@),
        r == clamped(sum_at(streams_model(old(streams)@), 0)),
        streams_model(final(streams)@) == Seq::new(
            old(streams)@.len(),
            |i: int| after_playing(streams_model(old(streams)@)[i], 1),
        ),
        writes_of(final(streams)@) == writes_of(old(streams)@),
{
    let ghost before = streams_model(streams@);
    let n: usize = streams.len();
    let mut mixed: i32 = 0;
    let mut i: usize = 0;
    assert(before.subrange(0, 0) =~= Seq::empty());
    while i < n
        invariant
            n == streams@.len(),
            n == old(streams)@.len(),
            n <= MIX_LIMIT,
            i <= n,
            streams_wf(streams@),
            before == streams_model(old(streams)@),
            mixed == sum_at(before.subrange(0, i as int), 0),
            -32768 * i <= mixed <= 32767 * i,
            forall|k: int|
                0 <= k < i ==> stream_model(#[trigger] streams@[k]) == after_playing(before[k], 1),
            forall|k: int| i <= k < n ==> #[trigger] streams@[k] == old(streams)@[k],
            writes_of(streams@) == writes_of(old(streams)@),
        decreases n - i,
    {
        assert(streams@[i as int] == old(streams)@[i as int]);
        let ghost mid = streams@;
        let sample: i16 = take_sample(streams, i);
        assert(before.subrange(0, i + 1).drop_last() =~= before.subrange(0, i as int));
        assert(before.subrange(0, i + 1).last() == before[i as int]);
        mixed += sample as i32;
        proof {
            assert forall|k: int| 0 <= k < i + 1 implies stream_model(#[trigger] streams@[k])
                == after_playing(before[k], 1) by {
                if k < i {
                    assert(streams@[k] == mid[k]);
                }
            }
            assert forall|k: int| i + 1 <= k < n implies #[trigger] streams@[k] == old(streams)@[k] by {
                assert(streams@[k] == mid[k]);
            }
        }
        i += 1;
    }
    assert(before.subrange(0, n as int) =~= before);
    assert(streams_model(streams@) =~= Seq::new(n as nat, |k: int| after_playing(before[k], 1)));
    if mixed < -32768 {
        -32768
    } else if mixed > 32767 {
        32767
    } else {
        mixed as i16
    }
}

proof fn lemma_after(s: Option<Seq<i16>>, n: int, k: int)
    requires
        n >= 0,
        k >= 0,
    ensures
        after_playing(after_playing(s, n), 1) == after_playing(s, n + 1),
        sample_at(after_playing(s, n), k) == sample_at(s, n + k),
        after_playing(s, 0) == s,
{
    match s {
        Some(w) => {
            if n + 1 < w.len() {
                assert(w.skip(n).skip(1) =~= w.skip(n + 1));
            } else if n < w.len() {
                assert(w.skip(n).len() <= 1);
            }
            if 0 < w.len() {
                assert(w.skip(0) =~= w);
            } else {
                assert(w =~= Seq::empty());
            }
        },
        None => {},
    }
}

proof fn lemma_sum_shift(
    a: Seq<Option<Seq<i16>>>, b: Seq<Option<Seq<i16>>>, n: int, k: int,
)
    requires
        n >= 0,
        k >= 0,
        a.len() == b.len(),
        forall|i: int| 0 <= i < a.len() ==> #[trigger] b[i] == after_playing(a[i], n),
    ensures
        sum_at(b, k) == sum_at(a, n + k),
    decreases a.len(),
{
    if a.len() > 0 {
        let x = a.drop_last();
        let y = b.drop_last();
        assert forall|i: int| 0 <= i < x.len() implies #[trigger] y[i] == after_playing(
            x[i], n,
        ) by {
            assert(y[i] == b[i]);
        }
        lemma_sum_shift(x, y, n, k);
        assert(b[b.len() - 1] == after_playing(a[a.len() - 1], n));
        lemma_after(a.last(), n, k);
    }
}

/// Mix all streams into a buffer: each sample is the sum of theirs, cut off where it is
/// too loud.
pub fn mix_into(streams: &mut Vec<Option<AudioStream>>, output: &mut [i16])
    requires
        streams_wf(old(streams)@),
        old(streams)@.len() <= MIX_LIMIT,
    ensures
        streams_wf(final(streams)@),
        final(output)@ == Seq::new(
            old(output)@.len(),
            |k: int| clamped(sum_at(streams_model(old(streams)@), k)),
        ),
        streams_model(final(streams)@) == Seq::new(
            old(streams)@.len(),
            |i: int| after_playing(streams_model(old(streams)@)[i], old(output)@.len() as int),
        ),
        writes_of(final(streams)@) == writes_of(old(streams)@),
{
    let ghost before = streams_model(streams@);
    let n: usize = output.len();
    let mut k: usize = 0;
    proof {
        assert forall|i: int| 0 <= i < before.len() implies #[trigger] streams_model(streams@)[i]
            == after_playing(before[i], 0) by {
            lemma_after(before[i], 0, 0);
        }
    }
    while k < n
        invariant
            n == output@.len(),
            n == old(output)@.len(),
            k <= n,
            streams_wf(streams@),
            streams@.len() == old(streams)@.len(),
            streams@.len() <= MIX_LIMIT,
            before == streams_model(old(streams)@),
            forall|j: int|
                0 <= j < k ==> #[trigger] output@[j] == clamped(sum_at(before, j)),
            forall|i: int|
                0 <= i < before.len() ==> #[trigger] streams_model(streams@)[i] == after_playing(
                    before[i], k as int,
                ),
            writes_of(streams@) == writes_of(old(streams)@),
        decreases n - k,
    {
        let ghost mid = streams_model(streams@);
        let sample: i16 = mix_one(streams);
        proof {
            lemma_sum_shift(before, mid, k as int, 0);
            assert(streams_model(streams@).len() == streams@.len());
            assert forall|i: int| 0 <= i < before.len() implies #[trigger] streams_model(
                streams@,
            )[i] == after_playing(before[i], k + 1) by {
                assert(mid[i] == after_playing(before[i], k as int));
                lemma_after(before[i], k as int, 0);
            }
        }
        output[k] = sample;
        k += 1;
    }
    assert(output@ =~= Seq::new(n as nat, |j: int| clamped(sum_at(before, j))));
    assert(streams_model(streams@) =~= Seq::new(
        before.len(),
        |i: int| after_playing(before[i], n as int),
    ));
}

/// A write that is over.
#[derive(Clone, Copy, PartialEq, Eq, Structural, Debug)]
pub struct CompletedWrite {
    pub request_id: u32,
    pub len: u32,
}

/// What becomes of a write that waits once there is room: some more of its samples go,
/// and it is over when all its bytes went.
pub open spec fn write_goes_on(w: PendingWrite, waiting: Seq<i16>, r: Option<PendingWrite>) -> bool {
    let room = RING_SAMPLES - 1 - waiting.len();
    let n = if w.samples@.len() < room { w.samples@.len() as int } else { room };
    if w.bytes_written + n * 2 >= w.buffer_len {
        r is None
    } else {
        r matches Some(p) && p.request_id == w.request_id && p.buffer_len == w.buffer_len
            && p.bytes_written == w.bytes_written + n * 2 && p.samples@ == w.samples@.skip(n)
    }
}

/// The samples that a write adds.
pub open spec fn added(w: PendingWrite, waiting: Seq<i16>) -> Seq<i16> {
    let room = RING_SAMPLES - 1 - waiting.len();
    if w.samples@.len() < room { w.samples@ } else { w.samples@.subrange(0, room) }
}

/// The samples of a write fill what is left of it, but for an odd byte.
pub open spec fn pending_wf(w: PendingWrite) -> bool {
    w.bytes_written <= w.buffer_len && w.samples@.len() == (w.buffer_len - w.bytes_written) / 2
}

impl AudioStream {
    /// Let the write that waits go on. Gives the write where it is over.
    pub fn resume_write(&mut self) -> (r: Option<CompletedWrite>)
        requires
            old(self).wf(),
            old(self).pending_write matches Some(w) ==> pending_wf(w) && w.buffer_len <= u32::MAX,
        ensures
            final(self).wf(),
            final(self).pending_write matches Some(w) ==> pending_wf(w) && w.buffer_len
                <= u32::MAX,
            match old(self).pending_write {
                None => r is None && final(self).waiting() == old(self).waiting() && final(self).pending_write is None,
                Some(w) => {
                    &&& final(self).waiting() == old(self).waiting() + added(
                        w, old(self).waiting(),
                    )
                    &&& write_goes_on(w, old(self).waiting(), final(self).pending_write)
                    &&& r == (if final(self).pending_write is None {
                        Some(CompletedWrite { request_id: w.request_id, len: w.buffer_len as u32 })
                    } else {
                        None
                    })
                },
            },
    {
        let taken: Option<PendingWrite> = self.pending_write.take();
        assert(self.waiting() =~= old(self).waiting());
        match taken {
            None => None,
            Some(w) => {
                let ghost before = self.waiting();
                let written: usize = self.write_samples(w.samples.as_slice());
                assert(self.waiting() =~= before + added(w, before));
                let done: usize = w.bytes_written + written * 2;
                if done >= w.buffer_len {
                    Some(CompletedWrite { request_id: w.request_id, len: w.buffer_len as u32 })
                } else {
                    let mut samples: Vec<i16> = w.samples;
                    let rest: Vec<i16> = samples.split_off(written);
                    assert(rest@ =~= w.samples@.skip(written as int));
                    let ghost mid = self.waiting();
                    self.pending_write = Some(
                        PendingWrite {
                            request_id: w.request_id,
                            samples: rest,
                            buffer_len: w.buffer_len,
                            bytes_written: done,
                        },
                    );
                    assert(self.waiting() =~= mid);
                    None
                }
            },
        }
    }
}

/// The driver: its streams, whether the card plays, and which half of the buffer it
/// played last.
pub struct SB16Driver {
    pub dma_paddr: u32,
    pub current_half: bool,
    pub playing: bool,
    pub streams: Vec<Option<AudioStream>>,
    pub next_instance: u32,
}

/// The slot that the number of a file names.
pub open spec fn slot_of(instance: u32) -> int {
    instance as int / 0x1_0000
}

/// A stream is open in a slot.
pub open spec fn open_in(streams: Seq<Option<AudioStream>>, slot: int) -> bool {
    0 <= slot < streams.len() && streams[slot] is Some
}

/// Some stream is open.
pub open spec fn any_open(streams: Seq<Option<AudioStream>>) -> bool {
    exists|i: int| 0 <= i < streams.len() && (#[trigger] streams[i]) is Some
}

/// What a write to a stream leads to.
pub struct WriteOutcome {
    /// The answer, unless the write waits.
    pub result: Option<IoResult>,
    /// The card has to start playing.
    pub start: bool,
}

/// Samples of two bytes each, the low one first.
pub open spec fn samples_of(bytes: Seq<u8>) -> Seq<i16> {
    Seq::new(bytes.len() / 2, |i: int| sample_of(bytes[2 * i], bytes[2 * i + 1]))
}

/// The samples that wait in a stream after bytes were written to it.
pub open spec fn samples_taken(waiting: Seq<i16>, bytes: Seq<u8>) -> Seq<i16> {
    let room = RING_SAMPLES - 1 - waiting.len();
    let all = samples_of(bytes);
    waiting + (if all.len() < room { all } else { all.subrange(0, room) })
}

/// The samples of a write that have to wait for room. A write is over when all its bytes were taken.
pub open spec fn samples_kept(waiting: Seq<i16>, bytes: Seq<u8>) -> Option<Seq<i16>> {
    let n = samples_taken(waiting, bytes).len() - waiting.len();
    if n * 2 >= bytes.len() { None } else { Some(samples_of(bytes).skip(n)) }
}

pub open spec fn sample_of(lo: u8, hi: u8) -> i16 {
    let x = lo + hi * 256;
    if x < 0x8000 { x as i16 } else { (x - 0x1_0000) as i16 }
}

/// Read samples from bytes. A last odd byte is left out.
pub fn to_samples(bytes: &[u8]) -> (r: Vec<i16>)
    ensures
        r@ == samples_of(bytes@),
{
    let total: usize = bytes.len();
    let n: usize = total / 2;
    let mut out: Vec<i16> = Vec::new();
    let mut i: usize = 0;
    while i < n
        invariant
            total == bytes@.len(),
            n == total / 2,
            i <= n,
            out@ =~= samples_of(bytes@).subrange(0, i as int),
        decreases n - i,
    {
        let x: i32 = bytes[2 * i] as i32 + bytes[2 * i + 1] as i32 * 256;
        let s: i16 = if x < 0x8000 { x as i16 } else { (x - 0x1_0000) as i16 };
        assert(s == samples_of(bytes@)[i as int]);
        out.push(s);
        i += 1;
    }
    assert(out@ =~= samples_of(bytes@));
    out
}

impl SB16Driver {
    pub open spec fn wf(&self) -> bool {
        &&& self.streams@.len() == MAX_STREAMS
        &&& streams_wf(self.streams@)
        &&& forall|i: int|
            0 <= i < MAX_STREAMS ==> ((#[trigger] self.streams@[i]) matches Some(s)
                ==> (s.pending_write matches Some(w) ==> pending_wf(w) && w.buffer_len
                <= u32::MAX))
    }

    pub fn new(dma_paddr: u32) -> (r: Self)
        ensures
            r.wf(),
            r.dma_paddr == dma_paddr,
            !r.current_half,
            !r.playing,
            r.next_instance == 1,
            !any_open(r.streams@),
    {
        let mut streams: Vec<Option<AudioStream>> = Vec::new();
        let mut i: usize = 0;
        while i < MAX_STREAMS
            invariant
                i <= MAX_STREAMS,
                streams@.len() == i,
                forall|k: int| 0 <= k < i ==> (#[trigger] streams@[k]) is None,
            decreases MAX_STREAMS - i,
        {
            streams.push(None);
            i += 1;
        }
        SB16Driver { dma_paddr, current_half: false, playing: false, streams, next_instance: 1 }
    }

    /// Open a stream in the first free slot.
    pub fn open(&mut self) -> (r: IoResult)
        requires
            old(self).wf(),
        ensures
            final(self).wf(),
            final(self).dma_paddr == old(self).dma_paddr,
            final(self).current_half == old(self).current_half,
            final(self).playing == old(self).playing,
            match r {
                Err(e) => e == IoError::OperationFailed && (forall|i: int|
                    0 <= i < MAX_STREAMS ==> (#[trigger] old(self).streams@[i]) is Some)
                    && *final(self) == *old(self),
                Ok(instance) => exists|slot: int|
                    0 <= slot < MAX_STREAMS && (#[trigger] old(self).streams@[slot]) is None && (
                    forall|i: int|
                        0 <= i < slot ==> (#[trigger] old(self).streams@[i]) is Some) && instance
                        == old(self).next_instance | ((slot * 0x1_0000) as u32)
                        && (final(self).streams@[slot] matches Some(s) && s.waiting()
                        == Seq::<i16>::empty() && s.pending_write is None)
                        && (forall|i: int|
                        0 <= i < MAX_STREAMS && i != slot ==> #[trigger] final(self).streams@[i]
                            == old(self).streams@[i]) && final(self).next_instance == (old(self).next_instance + 1) % 0x1_0000_0000,
            },
    {
        let mut slot: usize = 0;
        while slot < MAX_STREAMS && self.streams[slot].is_some()
            invariant
                self.streams@.len() == MAX_STREAMS,
                slot <= MAX_STREAMS,
                forall|k: int| 0 <= k < slot ==> (#[trigger] self.streams@[k]) is Some,
            ensures
                slot < MAX_STREAMS ==> self.streams@[slot as int] is None,
            decreases MAX_STREAMS - slot,
        {
            slot += 1;
        }
        if slot == MAX_STREAMS {
            return Err(IoError::OperationFailed);
        }
        let instance: u32 = self.next_instance;
        self.next_instance = self.next_instance.wrapping_add(1);
        let stream: AudioStream = AudioStream::new();
        self.streams.set(slot, Some(stream));
        assert(old(self).streams@[slot as int] is None);
        Ok(instance | (slot as u32 * 0x1_0000))
    }

    /// Play bytes as samples. What does not fit in the ring waits.
    pub fn write_audio(&mut self, instance: u32, buffer: &[u8], request_id: u32) -> (r: WriteOutcome)
        requires
            old(self).wf(),
            buffer@.len() <= u32::MAX,
        ensures
            final(self).wf(),
            final(self).dma_paddr == old(self).dma_paddr,
            final(self).current_half == old(self).current_half,
            final(self).next_instance == old(self).next_instance,
            ({
                let slot = slot_of(instance);
                if !open_in(old(self).streams@, slot) {
                    &&& r.result == Some(IoResult::Err(IoError::FileHandleInvalid))
                    &&& !r.start
                    &&& *final(self) == *old(self)
                } else {
                    let waiting = old(self).streams@[slot]->0.waiting();
                    let room = RING_SAMPLES - 1 - waiting.len();
                    let all = samples_of(buffer@);
                    let n = if all.len() < room { all.len() as int } else { room };
                    &&& r.start == !old(self).playing
                    &&& final(self).playing
                    &&& final(self).streams@[slot]->0.waiting() == samples_taken(waiting, buffer@)
                    &&& r.result is None == (samples_kept(waiting, buffer@) is Some)
                    &&& r.result is None ==> final(self).streams@[slot]->0.pending_write->0.samples@
                        == samples_kept(waiting, buffer@)->0
                    &&& final(self).streams@[slot] matches Some(s) && s.waiting() == waiting
                        + all.subrange(0, n) && (if n * 2 >= buffer@.len() {
                        &&& r.result == Some(IoResult::Ok(buffer@.len() as u32))
                        &&& s.pending_write == old(self).streams@[slot]->0.pending_write
                    } else {
                        &&& r.result is None
                        &&& s.pending_write matches Some(p) && p.request_id == request_id
                            && p.buffer_len == buffer@.len() && p.bytes_written == n * 2
                            && p.samples@ == all.skip(n)
                    })
                    &&& forall|i: int|
                        0 <= i < MAX_STREAMS && i != slot ==> #[trigger] final(self).streams@[i]
                            == old(self).streams@[i]
                }
            }),
    {
        let slot: usize = (instance / 0x1_0000) as usize;
        if slot >= self.streams.len() || self.streams[slot].is_none() {
            return WriteOutcome {
                result: Some(Err(IoError::FileHandleInvalid)),
                start: false,
            };
        }
        let start: bool = !self.playing;
        self.playing = true;
        let samples: Vec<i16> = to_samples(buffer);
        let mut taken: Option<AudioStream> = None;
        core::mem::swap(&mut self.streams[slot], &mut taken);
        let mut result: Option<IoResult> = Some(Ok(buffer.len() as u32));
        match taken {
            None => {},
            Some(mut stream) => {
                assert(old(self).streams@[slot as int] == Some(stream));
                let ghost before = stream.waiting();
                let written: usize = stream.write_samples(samples.as_slice());
                assert(stream.waiting() =~= samples_taken(before, buffer@));
                let bytes_written: usize = written * 2;
                if bytes_written < buffer.len() {
                    let mut all: Vec<i16> = samples;
                    let rest: Vec<i16> = all.split_off(written);
                    assert(rest@ =~= samples_of(buffer@).skip(written as int));
                    stream.pending_write = Some(
                        PendingWrite {
                            request_id,
                            samples: rest,
                            buffer_len: buffer.len(),
                            bytes_written,
                        },
                    );
                    result = None;
                }
                self.streams[slot] = Some(stream);
            },
        }
        WriteOutcome { result, start }
    }

    /// Whether any stream is open.
    pub fn has_active_streams(&self) -> (r: bool)
        ensures
            r == any_open(self.streams@),
    {
        let mut i: usize = 0;
        while i < self.streams.len()
            invariant
                i <= self.streams@.len(),
                forall|k: int| 0 <= k < i ==> (#[trigger] self.streams@[k]) is None,
            decreases self.streams@.len() - i,
        {
            if self.streams[i].is_some() {
                assert(self.streams@[i as int] is Some);
                return true;
            }
            i += 1;
        }
        false
    }

    /// Close a stream. With the last one the card stops, which the second result tells.
    pub fn close_stream(&mut self, instance: u32) -> (r: (IoResult, bool))
        requires
            old(self).wf(),
        ensures
            final(self).wf(),
            final(self).dma_paddr == old(self).dma_paddr,
            final(self).current_half == old(self).current_half,
            final(self).next_instance == old(self).next_instance,
            ({
                let slot = slot_of(instance);
                if !open_in(old(self).streams@, slot) {
                    &&& r == (IoResult::Err(IoError::FileHandleInvalid), false)
                    &&& *final(self) == *old(self)
                } else {
                    &&& r.0 == IoResult::Ok(1u32)
                    &&& final(self).streams@ == old(self).streams@.update(slot, None)
                    &&& r.1 == (old(self).playing && !any_open(final(self).streams@))
                    &&& final(self).playing == (old(self).playing && any_open(
                        final(self).streams@,
                    ))
                }
            }),
    {
        let slot: usize = (instance / 0x1_0000) as usize;
        if slot >= self.streams.len() || self.streams[slot].is_none() {
            return (Err(IoError::FileHandleInvalid), false);
        }
        self.streams.set(slot, None);
        let mut stop: bool = false;
        if !self.has_active_streams() && self.playing {
            self.playing = false;
            stop = true;
        }
        (Ok(1), stop)
    }

    /// Where the half of the buffer begins that was played and is to be filled again,
    /// in samples.
    pub fn finished_half(&self) -> (r: usize)
        ensures
            r == (if self.current_half { 0 } else { DMA_HALF_SAMPLES as int }),
    {
        if self.current_half { 0 } else { DMA_HALF_SAMPLES }
    }

    /// A half of the buffer was played: fill it again, and let writes that wait go on.
    /// Gives those that are over.
    pub fn handle_irq(&mut self, half: &mut [i16]) -> (r: Vec<CompletedWrite>)
        requires
            old(self).wf(),
            old(half)@.len() == DMA_HALF_SAMPLES,
        ensures
            final(self).wf(),
            final(self).current_half == !old(self).current_half,
            final(self).playing == old(self).playing,
            final(self).dma_paddr == old(self).dma_paddr,
            final(self).next_instance == old(self).next_instance,
            final(half)@ == Seq::new(
                DMA_HALF_SAMPLES as nat,
                |k: int| clamped(sum_at(streams_model(old(self).streams@), k)),
            ),
            forall|i: int|
                #![trigger final(self).streams@[i]]
                0 <= i < MAX_STREAMS ==> refilled(
                    old(self).streams@[i], final(self).streams@[i],
                ),
            r@ == completed(writes_of(old(self).streams@), writes_of(final(self).streams@)),
    {
        mix_into(&mut self.streams, half);
        self.current_half = !self.current_half;
        let ghost mid = self.streams@;
        let ghost start = old(self).streams@;
        proof {
            assert(streams_model(mid).len() == mid.len());
            assert forall|i: int| 0 <= i < MAX_STREAMS implies writes_of(mid)[i] == writes_of(
                start,
            )[i] && streams_model(mid)[i] == after_playing(
                streams_model(start)[i], DMA_HALF_SAMPLES as int,
            ) by {}
        }
        let mut out: Vec<CompletedWrite> = Vec::new();
        let mut i: usize = 0;
        proof {
            assert(writes_of(start).subrange(0, 0) =~= Seq::empty());
            assert(writes_of(self.streams@).subrange(0, 0) =~= Seq::empty());
            assert forall|k: int| 0 <= k < MAX_STREAMS implies ((#[trigger] mid[k]) matches Some(s)
                ==> (s.pending_write matches Some(w) ==> pending_wf(w) && w.buffer_len
                <= u32::MAX)) by {
                assert(writes_of(mid)[k] == writes_of(start)[k]);
                assert(streams_model(mid)[k] == after_playing(
                    streams_model(start)[k], DMA_HALF_SAMPLES as int,
                ));
                assert(streams_model(mid)[k] == stream_model(mid[k]));
                assert(streams_model(start)[k] == stream_model(start[k]));
            }
        }
        while i < MAX_STREAMS
            invariant
                i <= MAX_STREAMS,
                self.wf(),
                mid.len() == MAX_STREAMS,
                start.len() == MAX_STREAMS,
                start == old(self).streams@,
                self.current_half == !old(self).current_half,
                self.playing == old(self).playing,
                self.dma_paddr == old(self).dma_paddr,
                self.next_instance == old(self).next_instance,
                forall|k: int|
                    0 <= k < MAX_STREAMS ==> writes_of(mid)[k] == writes_of(start)[k]
                        && #[trigger] streams_model(mid)[k] == after_playing(
                        streams_model(start)[k], DMA_HALF_SAMPLES as int,
                    ),
                forall|k: int| i <= k < MAX_STREAMS ==> #[trigger] self.streams@[k] == mid[k],
                forall|k: int|
                    0 <= k < i ==> refilled(start[k], #[trigger] self.streams@[k]),
                out@ == completed(
                    writes_of(start).subrange(0, i as int),
                    writes_of(self.streams@).subrange(0, i as int),
                ),
            decreases MAX_STREAMS - i,
        {
            let ghost before = self.streams@;
            assert(before[i as int] == mid[i as int]);
            assert(streams_model(mid)[i as int] == after_playing(
                streams_model(start)[i as int], DMA_HALF_SAMPLES as int,
            ));
            assert(writes_of(mid)[i as int] == writes_of(start)[i as int]);
            let mut slot: Option<AudioStream> = None;
            core::mem::swap(&mut self.streams[i], &mut slot);
            let mut done: Option<CompletedWrite> = None;
            match slot {
                None => {
                    assert(self.streams@ =~= before);
                },
                Some(mut stream) => {
                    done = stream.resume_write();
                    self.streams[i] = Some(stream);
                },
            }
            match done {
                Some(c) => {
                    out.push(c);
                },
                None => {},
            }
            proof {
                assert forall|k: int| 0 <= k < MAX_STREAMS && k != i implies #[trigger]
                    self.streams@[k] == before[k] by {}
                assert(refilled(start[i as int], self.streams@[i as int]));
                let a = writes_of(start).subrange(0, i + 1);
                let b = writes_of(self.streams@).subrange(0, i + 1);
                assert(a.drop_last() =~= writes_of(start).subrange(0, i as int));
                assert(b.drop_last() =~= writes_of(before).subrange(0, i as int));
                assert(a.last() == writes_of(start)[i as int]);
                assert(b.last() == writes_of(self.streams@)[i as int]);
                assert(out@ =~= completed(a, b));
            }
            i += 1;
        }
        assert(writes_of(start).subrange(0, MAX_STREAMS as int) =~= writes_of(start));
        assert(writes_of(self.streams@).subrange(0, MAX_STREAMS as int) =~= writes_of(
            self.streams@,
        ));
        out
    }

    /// What tells the channel to move samples from memory to the card without end:
    /// addresses and counts are of two bytes.
    pub fn setup_dma_16bit(&self) -> (r: Vec<PortWrite>)
        ensures
            r@ == dma_setup(self.dma_paddr),
    {
        let addr_words: u32 = self.dma_paddr / 2;
        let page: u8 = (self.dma_paddr / 0x1_0000 % 0x100) as u8;
        let r: Vec<PortWrite> = vec![
            PortWrite { port: 0xD4, value: 0x05 },
            PortWrite { port: 0xD6, value: 0x59 },
            PortWrite { port: 0xD8, value: 0xFF },
            PortWrite { port: 0xC4, value: (addr_words % 0x100) as u8 },
            PortWrite { port: 0xC4, value: (addr_words / 0x100 % 0x100) as u8 },
            PortWrite { port: 0x8B, value: page },
            PortWrite { port: 0xD8, value: 0xFF },
            PortWrite { port: 0xC6, value: 0xFF },
            PortWrite { port: 0xC6, value: 0x07 },
            PortWrite { port: 0xD4, value: 0x01 },
        ];
        assert(r@ =~= dma_setup(self.dma_paddr));
        r
    }
}

/// The writes to the ports of the channel.
pub open spec fn dma_setup(paddr: u32) -> Seq<PortWrite> {
    let words = paddr / 2;
    let count = (DMA_BUFFER_BYTES / 2 - 1) as u32;
    seq![
        PortWrite { port: 0xD4, value: 0x05 },
        PortWrite { port: 0xD6, value: 0x59 },
        PortWrite { port: 0xD8, value: 0xFF },
        PortWrite { port: 0xC4, value: (words % 0x100) as u8 },
        PortWrite { port: 0xC4, value: (words / 0x100 % 0x100) as u8 },
        PortWrite { port: 0x8B, value: (paddr / 0x1_0000 % 0x100) as u8 },
        PortWrite { port: 0xD8, value: 0xFF },
        PortWrite { port: 0xC6, value: (count % 0x100) as u8 },
        PortWrite { port: 0xC6, value: (count / 0x100 % 0x100) as u8 },
        PortWrite { port: 0xD4, value: 0x01 },
    ]
}

/// What becomes of a stream when a half of the buffer is filled: its first samples are
/// taken, and its write goes on.
pub open spec fn refilled(before: Option<AudioStream>, after: Option<AudioStream>) -> bool {
    match before {
        None => after is None,
        Some(b) => {
            let left = after_playing(Some(b.waiting()), DMA_HALF_SAMPLES as int)->0;
            after matches Some(a) && match b.pending_write {
                None => a.waiting() == left && a.pending_write is None,
                Some(w) => a.waiting() == left + added(w, left) && write_goes_on(
                    w, left, a.pending_write,
                ),
            }
        },
    }
}

/// The writes that waited before and do not any more, in order.
pub open spec fn completed(
    before: Seq<Option<PendingWrite>>, after: Seq<Option<PendingWrite>>,
) -> Seq<CompletedWrite>
    decreases before.len(),
{
    if before.len() == 0 || after.len() == 0 {
        Seq::empty()
    } else {
        let rest = completed(before.drop_last(), after.drop_last());
        match before.last() {
            Some(w) => if after.last() is None {
                rest.push(CompletedWrite { request_id: w.request_id, len: w.buffer_len as u32 })
            } else {
                rest
            },
            None => rest,
        }
    }
}

/// A stream plays what was written to it, in order, and silence after that: samples
/// leave the ring as they came.
pub proof fn streams_play_in_order(waiting: Seq<i16>, samples: Seq<i16>, n: int, k: int)
    requires
        0 <= n,
        0 <= k,
    ensures
        sample_at(after_playing(Some(waiting + samples), n), k) == (if n + k < waiting.len() {
            waiting[n + k] as int
        } else if n + k < waiting.len() + samples.len() {
            samples[n + k - waiting.len()] as int
        } else {
            0
        }),
{
    lemma_after(Some(waiting + samples), n, k);
}

/// One stream alone is played as it is.
pub proof fn one_stream_is_unchanged(w: Seq<i16>, k: int)
    requires
        0 <= k < w.len(),
    ensures
        clamped(sum_at(seq![Some(w)], k)) == w[k],
{
    assert(seq![Some(w)].drop_last() =~= Seq::empty());
    assert(sum_at(seq![Some(w)].drop_last(), k) == 0);
}

/// The hexadecimal digits of a text as a number of 16 bits, which wraps. Other bytes
/// are skipped.
pub open spec fn hex_digits_u16(s: Seq<u8>) -> u16
    decreases s.len(),
{
    if s.len() == 0 {
        0
    } else {
        match crate::command::output::hex_value(s.last()) {
            Some(d) => ((hex_digits_u16(s.drop_last()) * 16 + d) % 0x1_0000) as u16,
            None => hex_digits_u16(s.drop_last()),
        }
    }
}

/// A number behind "0x".
pub open spec fn without_prefix(s: Seq<u8>) -> Seq<u8> {
    if s.len() >= 2 && s[0] == 0x30 && (s[1] == 0x78 || s[1] == 0x58) { s.skip(2) } else { s }
}

/// Read a hexadecimal number of 16 bits.
pub fn parse_u16_hex(s: &[u8]) -> (r: u16)
    ensures
        r == hex_digits_u16(without_prefix(s@)),
{
    let start: usize = if s.len() >= 2 && s[0] == 0x30 && (s[1] == 0x78 || s[1] == 0x58) {
        2
    } else {
        0
    };
    let ghost t = without_prefix(s@);
    assert(t =~= s@.skip(start as int));
    let mut result: u16 = 0;
    let mut i: usize = start;
    assert(t.subrange(0, 0) =~= Seq::empty());
    while i < s.len()
        invariant
            start <= i <= s@.len(),
            t == s@.skip(start as int),
            result == hex_digits_u16(t.subrange(0, i - start)),
        decreases s@.len() - i,
    {
        let ghost part = t.subrange(0, i - start + 1);
        assert(part.drop_last() =~= t.subrange(0, i - start));
        assert(part.last() == s@[i as int]);
        match crate::command::output::hex_digit(s[i]) {
            Some(d) => {
                let next: u32 = (result as u32 * 16 + d as u32) % 0x1_0000;
                result = next as u16;
            },
            None => {},
        }
        i += 1;
    }
    assert(t.subrange(0, s@.len() - start) =~= t);
    result
}

} // verus!

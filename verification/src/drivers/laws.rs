//! What holds of sound and of the controllers of drives.
use vstd::prelude::*;

use crate::drivers::e1000::{buffer_address, empty_tx, BUFFER_SIZE};
use crate::drivers::floppy::{digits_u8, place_of, sectors_needed, transfer_of, SECTOR_SIZE};
use crate::drivers::sb16::{
    added, after_playing, clamped, completed, dma_setup, hex_digits_u16, refilled, sample_of,
    samples_kept, samples_of, samples_taken, sum_at, without_prefix, AudioStream, CompletedWrite,
    PendingWrite, DMA_BUFFER_BYTES, DMA_HALF_SAMPLES, RING_SAMPLES,
};

verus! {

/// A sample has its low byte first and is a signed number.
pub proof fn samples_are_signed(bytes: Seq<u8>, i: int)
    requires
        0 <= i < bytes.len() / 2,
    ensures
        samples_of(bytes).len() == bytes.len() / 2,
        ({
            let lo = bytes[2 * i] as int;
            let hi = bytes[2 * i + 1] as int;
            samples_of(bytes)[i] as int == lo + 256 * (if hi >= 128 { hi - 256 } else { hi })
        }),
{
    assert(samples_of(bytes)[i] == sample_of(bytes[2 * i], bytes[2 * i + 1]));
}

/// Streams are mixed by adding them. One that is not open, or has come to its end, is silent.
pub proof fn streams_are_added(streams: Seq<Option<Seq<i16>>>, w: Seq<i16>, k: int)
    requires
        0 <= k,
    ensures
        sum_at(Seq::empty(), k) == 0,
        sum_at(streams.push(None), k) == sum_at(streams, k),
        k < w.len() ==> sum_at(streams.push(Some(w)), k) == sum_at(streams, k) + w[k],
        k >= w.len() ==> sum_at(streams.push(Some(w)), k) == sum_at(streams, k),
{
    assert(streams.push(Some(w)).drop_last() =~= streams);
    assert(streams.push(None).drop_last() =~= streams);
}

/// A sum that is too loud is cut at the loudest sample. Every other sum is kept.
pub proof fn loud_sums_are_cut(x: int, y: int)
    requires
        x <= y,
    ensures
        -32768 <= x <= 32767 ==> clamped(x) == x,
        x > 32767 ==> clamped(x) == 32767,
        x < -32768 ==> clamped(x) == -32768,
        clamped(x) <= clamped(y),
{
}

/// No sample of a write is lost: those that found no room wait, and a write that is over left none.
pub proof fn no_sample_of_a_write_is_lost(waiting: Seq<i16>, bytes: Seq<u8>)
    requires
        waiting.len() < RING_SAMPLES,
        bytes.len() as int % 2 == 0,
    ensures
        samples_kept(waiting, bytes) is None ==> samples_taken(waiting, bytes) == waiting + samples_of(bytes),
        samples_kept(waiting, bytes) matches Some(rest) ==> samples_taken(waiting, bytes) + rest == waiting + samples_of(
            bytes,
        ) && rest.len() > 0 && samples_taken(waiting, bytes).len() == RING_SAMPLES - 1,
{
    let all = samples_of(bytes);
    if let Some(rest) = samples_kept(waiting, bytes) {
        assert(samples_taken(waiting, bytes) + rest =~= waiting + all);
    } else {
        assert(samples_taken(waiting, bytes) =~= waiting + all);
    }
}

/// A stream whose half was played goes on where it was: what waits, and what a write still has to
/// give, are what was there without the samples that were played.
pub proof fn streams_go_on_after_each_half(before: AudioStream, after: AudioStream, w: PendingWrite)
    requires
        refilled(Some(before), Some(after)),
        before.wf(),
        before.pending_write == Some(w),
        w.bytes_written <= w.buffer_len,
        (w.buffer_len - w.bytes_written) as int % 2 == 0,
        w.samples@.len() == (w.buffer_len - w.bytes_written) / 2,
    ensures
        ({
            let n = DMA_HALF_SAMPLES as int;
            let left = if n < before.waiting().len() {
                before.waiting().skip(n)
            } else {
                Seq::empty()
            };
            &&& after.pending_write matches Some(p) ==> after.waiting() + p.samples@ == left + w.samples@
                && p.request_id == w.request_id && p.buffer_len == w.buffer_len
            &&& after.pending_write is None ==> after.waiting() == left + w.samples@
        }),
{
    let left = after_playing(Some(before.waiting()), DMA_HALF_SAMPLES as int)->0;
    assert(left.len() <= RING_SAMPLES - 1);
    if let Some(p) = after.pending_write {
        assert(added(w, left) + p.samples@ =~= w.samples@);
        assert(left + added(w, left) + p.samples@ =~= left + w.samples@);
    } else {
        assert(added(w, left) =~= w.samples@);
    }
}

/// A write that waited and waits no more is told, with its length. Others are not.
pub proof fn finished_writes_are_told(
    before: Seq<Option<PendingWrite>>, after: Seq<Option<PendingWrite>>, w: PendingWrite,
    p: PendingWrite,
)
    requires
        before.len() == after.len(),
    ensures
        completed(before.push(Some(w)), after.push(None)) == completed(before, after).push(
            CompletedWrite { request_id: w.request_id, len: w.buffer_len as u32 },
        ),
        completed(before.push(Some(w)), after.push(Some(p))) == completed(before, after),
        completed(before.push(None), after.push(None)) == completed(before, after),
        completed(before.push(None), after.push(Some(p))) == completed(before, after),
{
    assert(before.push(Some(w)).drop_last() =~= before);
    assert(before.push(None).drop_last() =~= before);
    assert(after.push(Some(p)).drop_last() =~= after);
    assert(after.push(None).drop_last() =~= after);
    if before.len() == 0 {
        assert(completed(before, after) =~= Seq::empty());
    }
}

/// The controller is told where the buffer of samples lies and how long it is, in words. Its channel
/// is masked before and open after.
pub proof fn the_buffer_of_samples_is_told(paddr: u32)
    requires
        paddr % 2 == 0,
        paddr < 0x100_0000,
    ensures
        ({
            let s = dma_setup(paddr);
            let words = s[3].value + s[4].value * 256;
            let page = s[5].value as int;
            let count = s[7].value + s[8].value * 256;
            &&& s.len() == 10
            &&& s[3].port == 0xC4 && s[4].port == 0xC4 && s[5].port == 0x8B
            &&& s[7].port == 0xC6 && s[8].port == 0xC6
            &&& words == (paddr as int / 2) % 0x1_0000
            &&& page == paddr as int / 0x1_0000
            &&& (count + 1) * 2 == DMA_BUFFER_BYTES
            &&& s[0].port == 0xD4 && s[0].value == 5 && s[9].port == 0xD4 && s[9].value == 1
        }),
{
}

/// A number of hexadecimal digits is read from the left, each digit worth sixteen of the next. A
/// prefix is passed over.
pub proof fn hexadecimal_numbers_are_read(s: Seq<u8>, digit: u8)
    ensures
        hex_digits_u16(Seq::empty()) == 0,
        0x30 <= digit <= 0x39 ==> hex_digits_u16(s.push(digit)) as int == (hex_digits_u16(s) * 16 + (digit
            - 0x30)) % 0x1_0000,
        0x41 <= digit <= 0x46 ==> hex_digits_u16(s.push(digit)) as int == (hex_digits_u16(s) * 16 + (digit
            - 0x41 + 10)) % 0x1_0000,
        0x61 <= digit <= 0x66 ==> hex_digits_u16(s.push(digit)) as int == (hex_digits_u16(s) * 16 + (digit
            - 0x61 + 10)) % 0x1_0000,
        without_prefix(seq![0x30u8, 0x78u8] + s) == s,
        without_prefix(seq![0x30u8, 0x58u8] + s) == s,
{
    assert(s.push(digit).drop_last() =~= s);
    assert((seq![0x30u8, 0x78u8] + s).skip(2) =~= s);
    assert((seq![0x30u8, 0x58u8] + s).skip(2) =~= s);
}

/// A decimal number is read from the left, each digit worth ten of the next.
pub proof fn decimal_numbers_are_read(s: Seq<u8>, digit: u8)
    requires
        0x30 <= digit <= 0x39,
    ensures
        digits_u8(Seq::empty()) == 0,
        digits_u8(s.push(digit)) as int == (digits_u8(s) * 10 + (digit - 0x30)) % 256,
{
    assert(s.push(digit).drop_last() =~= s);
}

/// Sectors follow each other on a track, tracks on the two heads of a cylinder, and cylinders on the
/// disk.
pub proof fn sectors_follow_each_other(lba: int)
    requires
        0 <= lba < u32::MAX,
    ensures
        ({
            let a = place_of(lba);
            let b = place_of(lba + 1);
            &&& place_of(0).cylinder == 0 && place_of(0).head == 0 && place_of(0).sector == 1
            &&& a.sector < 18 ==> b.sector == a.sector + 1 && b.head == a.head && b.cylinder == a.cylinder
            &&& a.sector == 18 && a.head == 0 ==> b.sector == 1 && b.head == 1 && b.cylinder == a.cylinder
            &&& a.sector == 18 && a.head == 1 ==> b.sector == 1 && b.head == 0 && b.cylinder == a.cylinder
                + 1
        }),
{
}

/// As many sectors are needed as the bytes lie in.
pub proof fn sectors_hold_the_bytes(position: int, remaining: int)
    requires
        0 <= position,
        0 < remaining,
    ensures
        ({
            let first = position / (SECTOR_SIZE as int);
            let n = sectors_needed(position, remaining);
            &&& n >= 1
            &&& position + remaining <= (first + n) * SECTOR_SIZE
            &&& (first + n - 1) * SECTOR_SIZE < position + remaining
        }),
{
}

/// A transfer begins at the sector of its first byte.
pub proof fn transfers_begin_at_their_sector(position: int, remaining: int)
    requires
        0 <= position,
        0 < remaining,
        position + remaining <= u32::MAX,
    ensures
        ({
            let t = transfer_of(position, remaining);
            &&& t.first_sector * SECTOR_SIZE + t.offset == position
            &&& t.offset < SECTOR_SIZE
            &&& t.chs == place_of(t.first_sector as int)
            &&& 1 <= t.len <= remaining
        }),
{
}

/// The buffers of a ring lie behind each other, without a gap.
pub proof fn buffers_of_a_ring_follow_each_other(paddr: u32, i: int)
    requires
        0 <= i < 8,
        paddr <= 0xf000_0000,
    ensures
        buffer_address(paddr, 0) == paddr,
        buffer_address(paddr, i + 1) == buffer_address(paddr, i) + BUFFER_SIZE,
        empty_tx(buffer_address(paddr, i)).addr_low == buffer_address(paddr, i),
        empty_tx(buffer_address(paddr, i)).length == 0,
{
}

} // verus!

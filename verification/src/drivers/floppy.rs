//! The floppy disk driver.
use std::collections::BTreeMap;

use vstd::prelude::*;

use crate::api::io::{DriverCommand, IoError, IoResult, Message};
use crate::bits::lesser;
use crate::bytes::spliced;
use crate::hardware::serial::PortWrite;

verus! {

pub const SECTORS_PER_TRACK: usize = 18;
pub const SECTOR_SIZE: usize = 512;
/// The size of the buffer that disk and memory share.
pub const DMA_BUFFER_SIZE: usize = 0x1000;
/// A transfer takes at most this many sectors.
pub const MAX_SECTORS: usize = 8;

/// From the disk to memory, and from memory to the disk.
pub const DMA_READ_MODE: u8 = 0x56;
pub const DMA_WRITE_MODE: u8 = 0x5A;

/// Where a sector lies: sectors count from 1.
#[derive(Clone, Copy, PartialEq, Eq, Structural, Debug)]
pub struct ChsGeometry {
    pub cylinder: usize,
    pub head: usize,
    pub sector: usize,
}

impl ChsGeometry {
    /// The number of the sector, counted from 0.
    pub open spec fn lba(&self) -> int {
        (self.cylinder * 2 + self.head) * SECTORS_PER_TRACK + self.sector - 1
    }

    pub open spec fn wf(&self) -> bool {
        self.head < 2 && 1 <= self.sector <= SECTORS_PER_TRACK
    }

    /// Where the sector of a number lies.
    pub fn from_lba(lba: usize) -> (r: Self)
        ensures
            r.wf(),
            r.lba() == lba,
    {
        let sectors_per_cylinder: usize = 2 * SECTORS_PER_TRACK;
        let cylinder: usize = lba / sectors_per_cylinder;
        let cylinder_offset: usize = lba % sectors_per_cylinder;
        let head: usize = cylinder_offset / SECTORS_PER_TRACK;
        let sector: usize = cylinder_offset % SECTORS_PER_TRACK;
        ChsGeometry { cylinder, head, sector: sector + 1 }
    }
}

/// Every sector has one place, and every place one sector.
pub proof fn places_are_unique(a: ChsGeometry, b: ChsGeometry)
    requires
        a.wf(),
        b.wf(),
        a.lba() == b.lba(),
    ensures
        a == b,
{
    assert(a.sector == b.sector && a.head == b.head && a.cylinder == b.cylinder);
}

/// The ports of a channel that moves data without the processor.
#[derive(Clone, Copy, PartialEq, Eq, Structural, Debug)]
pub struct DmaChannelRegisters {
    pub start_address: u16,
    pub count_register: u16,
    pub page: u16,
    pub flip_flop_reset: u16,
    pub multi_mask_prev: u8,
}

/// The port that masks all channels.
pub const MULTI_MASK: u16 = 0x0f;
/// The port that sets the mode of a channel.
pub const DMA_MODE: u16 = 0x0b;

impl DmaChannelRegisters {
    /// The ports of a channel, and the write that masks it. `mask` is what the port of
    /// the masks holds.
    pub fn for_channel(channel: u8, mask: u8) -> (r: (Self, PortWrite))
        requires
            1 <= channel <= 3,
        ensures
            r.0 == (DmaChannelRegisters {
                start_address: (2 * channel) as u16,
                count_register: (2 * channel + 1) as u16,
                page: if channel == 1 {
                    0x83
                } else if channel == 2 {
                    0x81
                } else {
                    0x82
                },
                flip_flop_reset: 0x0c,
                multi_mask_prev: mask,
            }),
            r.1 == (PortWrite {
                port: MULTI_MASK,
                value: mask | (if channel == 1 {
                    2u8
                } else if channel == 2 {
                    4u8
                } else {
                    8u8
                }),
            }),
    {
        let (page, flag): (u16, u8) = if channel == 1 {
            (0x83, 2)
        } else if channel == 2 {
            (0x81, 4)
        } else {
            (0x82, 8)
        };
        (
            DmaChannelRegisters {
                start_address: 2 * channel as u16,
                count_register: 2 * channel as u16 + 1,
                page,
                flip_flop_reset: 0x0c,
                multi_mask_prev: mask,
            },
            PortWrite { port: MULTI_MASK, value: mask | flag },
        )
    }

    /// Set the address in memory: its low 24 bits, the lowest first.
    pub fn set_address(&self, paddr: u32) -> (r: Vec<PortWrite>)
        ensures
            r@ == seq![
                PortWrite { port: self.flip_flop_reset, value: 0xff },
                PortWrite { port: self.start_address, value: (paddr % 0x100) as u8 },
                PortWrite { port: self.start_address, value: (paddr / 0x100 % 0x100) as u8 },
                PortWrite { port: self.page, value: (paddr / 0x1_0000 % 0x100) as u8 },
            ],
    {
        let r: Vec<PortWrite> = vec![
            PortWrite { port: self.flip_flop_reset, value: 0xff },
            PortWrite { port: self.start_address, value: (paddr % 0x100) as u8 },
            PortWrite { port: self.start_address, value: (paddr / 0x100 % 0x100) as u8 },
            PortWrite { port: self.page, value: (paddr / 0x1_0000 % 0x100) as u8 },
        ];
        assert(r@ =~= seq![
            PortWrite { port: self.flip_flop_reset, value: 0xff },
            PortWrite { port: self.start_address, value: (paddr % 0x100) as u8 },
            PortWrite { port: self.start_address, value: (paddr / 0x100 % 0x100) as u8 },
            PortWrite { port: self.page, value: (paddr / 0x1_0000 % 0x100) as u8 },
        ]);
        r
    }

    /// Set the number of bytes: its low 16 bits.
    pub fn set_count(&self, byte_count: u32) -> (r: Vec<PortWrite>)
        ensures
            r@ == seq![
                PortWrite { port: self.flip_flop_reset, value: 0xff },
                PortWrite { port: self.count_register, value: (byte_count % 0x100) as u8 },
                PortWrite { port: self.count_register, value: (byte_count / 0x100 % 0x100) as u8 },
            ],
    {
        let r: Vec<PortWrite> = vec![
            PortWrite { port: self.flip_flop_reset, value: 0xff },
            PortWrite { port: self.count_register, value: (byte_count % 0x100) as u8 },
            PortWrite { port: self.count_register, value: (byte_count / 0x100 % 0x100) as u8 },
        ];
        assert(r@ =~= seq![
            PortWrite { port: self.flip_flop_reset, value: 0xff },
            PortWrite { port: self.count_register, value: (byte_count % 0x100) as u8 },
            PortWrite { port: self.count_register, value: (byte_count / 0x100 % 0x100) as u8 },
        ]);
        r
    }

    pub fn set_mode(&self, dma_mode: u8) -> (r: PortWrite)
        ensures
            r == (PortWrite { port: DMA_MODE, value: dma_mode }),
    {
        PortWrite { port: DMA_MODE, value: dma_mode }
    }

    /// Give the masks back their old value.
    pub fn release(&self) -> (r: PortWrite)
        ensures
            r == (PortWrite { port: MULTI_MASK, value: self.multi_mask_prev }),
    {
        PortWrite { port: MULTI_MASK, value: self.multi_mask_prev }
    }
}

#[derive(Clone, Copy, PartialEq, Eq, Structural, Debug)]
pub enum DriveSelect {
    Primary,
    Secondary,
}

impl DriveSelect {
    pub open spec fn number(&self) -> u8 {
        match self {
            DriveSelect::Primary => 0,
            DriveSelect::Secondary => 1,
        }
    }
}

/// What a drive can hold.
#[derive(Clone, Copy, PartialEq, Eq, Structural, Debug)]
pub enum DriveType {
    Absent,
    Capacity360K,
    Capacity720K,
    Capacity1200K,
    Capacity1440K,
    Capacity2880K,
}

/// What went wrong with the controller.
#[derive(Clone, Copy, PartialEq, Eq, Structural, Debug)]
pub enum ControllerError {
    UnsupportedController,
    InvalidResponse,
}

/// What to do after the controller told its version.
pub fn check_version(response: u8) -> (r: Result<(), ControllerError>)
    ensures
        r is Ok <==> response == 0x90,
        r matches Err(e) ==> e == ControllerError::UnsupportedController,
{
    if response != 0x90 { Err(ControllerError::UnsupportedController) } else { Ok(()) }
}

/// What to do after the settings of the controller were locked.
pub fn check_lock(response: u8) -> (r: Result<(), ControllerError>)
    ensures
        r is Ok <==> response == 0x10,
        r matches Err(e) ==> e == ControllerError::InvalidResponse,
{
    if response != 0x10 { Err(ControllerError::InvalidResponse) } else { Ok(()) }
}

/// Whether the heads are to be moved to the start once more: it is tried twice, until
/// bit 5 of the status tells that they got there.
pub fn recalibrate_again(tries: u8, st0: u8) -> (r: bool)
    ensures
        r == (tries < 2 && st0 / 32 % 2 == 0),
{
    tries < 2 && st0 / 32 % 2 == 0
}

/// Whether the controller has to be reset before a command: it takes commands where bit
/// 7 of its status is set and bit 6 is not.
pub fn needs_reset(status: u8) -> (r: bool)
    ensures
        r == (status / 64 != 2),
{
    status / 64 != 2
}

/// A part of a request that one transfer serves.
#[derive(Clone, Copy, PartialEq, Eq, Structural, Debug)]
pub struct Transfer {
    pub first_sector: usize,
    pub sector_count: usize,
    /// Where the part begins in the first sector.
    pub offset: usize,
    /// How many bytes are served.
    pub len: usize,
    pub chs: ChsGeometry,
}

/// The sectors that some bytes at a position lie in.
pub open spec fn sectors_needed(position: int, remaining: int) -> int {
    (position + remaining - 1) / (SECTOR_SIZE as int) - position / (SECTOR_SIZE as int) + 1
}

/// A transfer begins at the sector of the position, and goes as far as the request, the
/// buffer and the track do.
pub open spec fn is_transfer(t: Transfer, position: int, remaining: int) -> bool {
    &&& t.first_sector == position / (SECTOR_SIZE as int)
    &&& t.offset == position % (SECTOR_SIZE as int)
    &&& t.chs.wf()
    &&& t.chs.lba() == t.first_sector
    &&& t.sector_count == lesser(
        sectors_needed(position, remaining),
        lesser(MAX_SECTORS as int, SECTORS_PER_TRACK + 1 - t.chs.sector),
    )
    &&& t.len == lesser(remaining, t.sector_count * SECTOR_SIZE - t.offset)
}

/// A transfer serves at least one byte, stays on its track and in the buffer, and does
/// not leave the request.
pub proof fn transfers_fit(t: Transfer, position: int, remaining: int)
    requires
        is_transfer(t, position, remaining),
        position >= 0,
        remaining > 0,
    ensures
        1 <= t.len <= remaining,
        1 <= t.sector_count,
        t.sector_count * SECTOR_SIZE <= DMA_BUFFER_SIZE,
        t.chs.sector + t.sector_count - 1 <= SECTORS_PER_TRACK,
        t.offset + t.len <= t.sector_count * SECTOR_SIZE,
        t.first_sector * SECTOR_SIZE + t.offset == position,
{
}

/// The first transfer of a request.
pub fn next_transfer(position: usize, remaining: usize) -> (r: Transfer)
    requires
        remaining > 0,
        position + remaining <= usize::MAX,
    ensures
        is_transfer(r, position as int, remaining as int),
        r == transfer_of(position as int, remaining as int),
{
    let first_sector: usize = position / SECTOR_SIZE;
    let offset: usize = position % SECTOR_SIZE;
    let last_sector: usize = (position + remaining - 1) / SECTOR_SIZE;
    let mut sector_count: usize = last_sector - first_sector + 1;
    if sector_count > MAX_SECTORS {
        sector_count = MAX_SECTORS;
    }
    let chs: ChsGeometry = ChsGeometry::from_lba(first_sector);
    let left_on_track: usize = SECTORS_PER_TRACK + 1 - chs.sector;
    if sector_count > left_on_track {
        sector_count = left_on_track;
    }
    let available: usize = sector_count * SECTOR_SIZE - offset;
    let len: usize = if remaining < available { remaining } else { available };
    Transfer { first_sector, sector_count, offset, len, chs }
}

/// Whether the sectors of a transfer are to be read before they are written: some of
/// their bytes are not part of the request.
pub fn reads_before_write(t: &Transfer) -> (r: bool)
    ensures
        r == (t.offset != 0 || t.len as int % (SECTOR_SIZE as int) != 0),
{
    t.offset != 0 || t.len % SECTOR_SIZE != 0
}

/// The parameters of a command on sectors: where they are, their size, the sectors of a
/// track, the gap between sectors, and no length.
pub fn transfer_params(drive: DriveSelect, chs: &ChsGeometry) -> (r: Vec<u8>)
    requires
        chs.wf(),
        chs.cylinder < 256,
    ensures
        r@ == seq![
            (chs.head * 4 + drive.number()) as u8, chs.cylinder as u8, chs.head as u8,
            chs.sector as u8, 2u8, 18u8, 0x1bu8, 0xffu8,
        ],
{
    let number: u8 = match drive {
        DriveSelect::Primary => 0,
        DriveSelect::Secondary => 1,
    };
    let r: Vec<u8> = vec![
        (chs.head * 4) as u8 + number,
        chs.cylinder as u8,
        chs.head as u8,
        chs.sector as u8,
        2,
        18,
        0x1b,
        0xff,
    ];
    assert(r@ =~= seq![
        (chs.head * 4 + drive.number()) as u8, chs.cylinder as u8, chs.head as u8,
        chs.sector as u8, 2u8, 18u8, 0x1bu8, 0xffu8,
    ]);
    r
}

/// A request for bytes of a disk, part by part.
pub struct BlockRequest {
    pub drive: DriveSelect,
    pub buf_offset: usize,
    pub position: usize,
    pub total: usize,
}

impl BlockRequest {
    pub open spec fn wf(&self) -> bool {
        self.buf_offset <= self.total && self.position + (self.total - self.buf_offset)
            <= usize::MAX
    }

    /// What is left to do: a transfer, or none.
    pub fn transfer(&self) -> (r: Option<Transfer>)
        requires
            self.wf(),
        ensures
            r is None <==> self.buf_offset == self.total,
            r matches Some(t) ==> t == transfer_of(
                self.position as int, self.total - self.buf_offset,
            ),
            r matches Some(t) ==> is_transfer(
                t, self.position as int, self.total - self.buf_offset,
            ),
    {
        if self.buf_offset >= self.total {
            return None;
        }
        Some(next_transfer(self.position, self.total - self.buf_offset))
    }

    /// A transfer is done.
    pub fn advance(&mut self, t: &Transfer)
        requires
            old(self).wf(),
            t.len <= old(self).total - old(self).buf_offset,
        ensures
            final(self).wf(),
            final(self).buf_offset == old(self).buf_offset + t.len,
            final(self).position == old(self).position + t.len,
            final(self).total == old(self).total,
            final(self).drive == old(self).drive,
    {
        self.buf_offset += t.len;
        self.position += t.len;
    }

    /// Take the part of a transfer from the shared buffer.
    pub fn take(&self, t: &Transfer, dma: &[u8], buffer: &mut [u8])
        requires
            self.wf(),
            self.buf_offset < self.total,
            is_transfer(*t, self.position as int, self.total - self.buf_offset),
            dma@.len() == DMA_BUFFER_SIZE,
            old(buffer)@.len() == self.total,
        ensures
            final(buffer)@ == spliced(
                old(buffer)@, self.buf_offset as int, dma@.subrange(
                    t.offset as int, t.offset + t.len,
                ),
            ),
    {
        proof { transfers_fit(*t, self.position as int, self.total - self.buf_offset); }
        let ghost part = dma@.subrange(t.offset as int, t.offset + t.len);
        let total: usize = buffer.len();
        let mut i: usize = 0;
        assert(buffer@ =~= spliced(old(buffer)@, self.buf_offset as int, part.subrange(0, 0)));
        while i < t.len
            invariant
                i <= t.len,
                part == dma@.subrange(t.offset as int, t.offset + t.len),
                t.offset + t.len <= dma@.len(),
                dma@.len() == DMA_BUFFER_SIZE,
                self.buf_offset + t.len <= total,
                total == old(buffer)@.len(),
                buffer@ =~= spliced(
                    old(buffer)@, self.buf_offset as int, part.subrange(0, i as int),
                ),
            decreases t.len - i,
        {
            buffer[self.buf_offset + i] = dma[t.offset + i];
            i += 1;
        }
        assert(part.subrange(0, t.len as int) =~= part);
    }

    /// Put the part of a transfer into the shared buffer.
    pub fn put(&self, t: &Transfer, dma: &mut [u8], buffer: &[u8])
        requires
            self.wf(),
            self.buf_offset < self.total,
            is_transfer(*t, self.position as int, self.total - self.buf_offset),
            old(dma)@.len() == DMA_BUFFER_SIZE,
            buffer@.len() == self.total,
        ensures
            final(dma)@ == spliced(
                old(dma)@, t.offset as int, buffer@.subrange(
                    self.buf_offset as int, self.buf_offset + t.len,
                ),
            ),
    {
        proof { transfers_fit(*t, self.position as int, self.total - self.buf_offset); }
        let ghost part = buffer@.subrange(self.buf_offset as int, self.buf_offset + t.len);
        let total: usize = buffer.len();
        let mut i: usize = 0;
        assert(dma@ =~= spliced(old(dma)@, t.offset as int, part.subrange(0, 0)));
        while i < t.len
            invariant
                i <= t.len,
                part == buffer@.subrange(self.buf_offset as int, self.buf_offset + t.len),
                t.offset + t.len <= old(dma)@.len(),
                old(dma)@.len() == DMA_BUFFER_SIZE,
                self.buf_offset + t.len <= total,
                total == buffer@.len(),
                dma@ =~= spliced(old(dma)@, t.offset as int, part.subrange(0, i as int)),
            decreases t.len - i,
        {
            dma[t.offset + i] = buffer[self.buf_offset + i];
            i += 1;
        }
        assert(part.subrange(0, t.len as int) =~= part);
    }
}

/// What the shared buffer holds after a transfer from a disk.
pub open spec fn dma_after_read(dma: Seq<u8>, disk: Seq<u8>, t: Transfer) -> Seq<u8> {
    spliced(
        dma, 0, disk.subrange(
            t.first_sector * SECTOR_SIZE, (t.first_sector + t.sector_count) * SECTOR_SIZE,
        ),
    )
}

/// What a disk holds after a transfer to it.
pub open spec fn disk_after_write(disk: Seq<u8>, dma: Seq<u8>, t: Transfer) -> Seq<u8> {
    spliced(
        disk, t.first_sector * SECTOR_SIZE, dma.subrange(0, t.sector_count * SECTOR_SIZE),
    )
}

/// A transfer that reads gives exactly the bytes of the disk at its position.
pub proof fn reading_gives_the_disk(
    disk: Seq<u8>, dma: Seq<u8>, t: Transfer, position: int, remaining: int,
)
    requires
        is_transfer(t, position, remaining),
        position >= 0,
        remaining > 0,
        dma.len() == DMA_BUFFER_SIZE,
        (t.first_sector + t.sector_count) * SECTOR_SIZE <= disk.len(),
    ensures
        dma_after_read(dma, disk, t).subrange(t.offset as int, t.offset + t.len) == disk.subrange(
            position, position + t.len,
        ),
{
    transfers_fit(t, position, remaining);
    assert(dma_after_read(dma, disk, t).subrange(t.offset as int, t.offset + t.len)
        =~= disk.subrange(position, position + t.len));
}

/// A transfer that writes changes exactly the bytes of the disk at its position,
/// whatever the shared buffer held before, and no others.
pub proof fn writing_changes_the_request_alone(
    disk: Seq<u8>, dma: Seq<u8>, t: Transfer, position: int, remaining: int, part: Seq<u8>,
)
    requires
        is_transfer(t, position, remaining),
        position >= 0,
        remaining > 0,
        dma.len() == DMA_BUFFER_SIZE,
        part.len() == t.len,
        (t.first_sector + t.sector_count) * SECTOR_SIZE <= disk.len(),
    ensures
        ({
            let reads = t.offset != 0 || t.len as int % (SECTOR_SIZE as int) != 0;
            let before = if reads { dma_after_read(dma, disk, t) } else { dma };
            disk_after_write(disk, spliced(before, t.offset as int, part), t) == spliced(
                disk, position, part,
            )
        }),
{
    transfers_fit(t, position, remaining);
    let reads = t.offset != 0 || t.len as int % (SECTOR_SIZE as int) != 0;
    let before = if reads { dma_after_read(dma, disk, t) } else { dma };
    if !reads {
        assert(t.len == t.sector_count * SECTOR_SIZE);
    }
    assert(disk_after_write(disk, spliced(before, t.offset as int, part), t) =~= spliced(
        disk, position, part,
    ));
}

/// Where the sector of a number lies.
pub open spec fn place_of(lba: int) -> ChsGeometry {
    ChsGeometry {
        cylinder: (lba / 36) as usize,
        head: (lba % 36 / 18) as usize,
        sector: (lba % 18 + 1) as usize,
    }
}

/// The first transfer of a request.
pub open spec fn transfer_of(position: int, remaining: int) -> Transfer {
    let first = position / (SECTOR_SIZE as int);
    let offset = position % (SECTOR_SIZE as int);
    let count = lesser(
        sectors_needed(position, remaining), lesser(MAX_SECTORS as int, 18 - first % 18),
    );
    Transfer {
        first_sector: first as usize,
        sector_count: count as usize,
        offset: offset as usize,
        len: lesser(remaining, count * SECTOR_SIZE - offset) as usize,
        chs: place_of(first),
    }
}

proof fn lemma_transfer_of(position: int, remaining: int)
    requires
        0 <= position,
        0 < remaining,
        position + remaining <= u32::MAX,
    ensures
        is_transfer(transfer_of(position, remaining), position, remaining),
{
    let first = position / (SECTOR_SIZE as int);
    assert(place_of(first).lba() == first);
}

/// What a buffer holds after a request to read, from `at` on, is carried out transfer by
/// transfer.
pub open spec fn read_run(disk: Seq<u8>, dma: Seq<u8>, buffer: Seq<u8>, at: int, position: int)
    -> Seq<u8>
    decreases buffer.len() - at,
{
    if at < 0 || at >= buffer.len() {
        buffer
    } else {
        let t = transfer_of(position, buffer.len() - at);
        let after = dma_after_read(dma, disk, t);
        if t.len == 0 {
            buffer
        } else {
            read_run(
                disk,
                after,
                spliced(buffer, at, after.subrange(t.offset as int, t.offset + t.len)),
                at + t.len,
                position + t.len,
            )
        }
    }
}

/// What a disk holds after a request to write, from `at` on, is carried out transfer by
/// transfer.
pub open spec fn write_run(disk: Seq<u8>, dma: Seq<u8>, data: Seq<u8>, at: int, position: int)
    -> Seq<u8>
    decreases data.len() - at,
{
    if at < 0 || at >= data.len() {
        disk
    } else {
        let t = transfer_of(position, data.len() - at);
        let reads = t.offset != 0 || t.len as int % (SECTOR_SIZE as int) != 0;
        let before = if reads { dma_after_read(dma, disk, t) } else { dma };
        let filled = spliced(before, t.offset as int, data.subrange(at, at + t.len));
        if t.len == 0 {
            disk
        } else {
            write_run(
                disk_after_write(disk, filled, t), filled, data, at + t.len, position + t.len,
            )
        }
    }
}

proof fn lemma_on_disk(disk_len: int, t: Transfer, position: int, remaining: int)
    requires
        is_transfer(t, position, remaining),
        position >= 0,
        remaining > 0,
        disk_len % (SECTOR_SIZE as int) == 0,
        position + remaining <= disk_len,
    ensures
        (t.first_sector + t.sector_count) * SECTOR_SIZE <= disk_len,
{
    transfers_fit(t, position, remaining);
}

proof fn lemma_read_run(disk: Seq<u8>, dma: Seq<u8>, buffer: Seq<u8>, at: int, position: int)
    requires
        disk.len() as int % (SECTOR_SIZE as int) == 0,
        disk.len() <= u32::MAX,
        dma.len() == DMA_BUFFER_SIZE,
        0 <= at <= buffer.len(),
        0 <= position,
        position + (buffer.len() - at) <= disk.len(),
    ensures
        read_run(disk, dma, buffer, at, position) == spliced(
            buffer, at, disk.subrange(position, position + (buffer.len() - at)),
        ),
    decreases buffer.len() - at,
{
    let remaining = buffer.len() - at;
    let goal = spliced(buffer, at, disk.subrange(position, position + remaining));
    if remaining == 0 {
        assert(goal =~= buffer);
    } else {
        let t = transfer_of(position, remaining);
        lemma_transfer_of(position, remaining);
        transfers_fit(t, position, remaining);
        lemma_on_disk(disk.len() as int, t, position, remaining);
        reading_gives_the_disk(disk, dma, t, position, remaining);
        let after = dma_after_read(dma, disk, t);
        let part = after.subrange(t.offset as int, t.offset + t.len);
        let next = spliced(buffer, at, part);
        lemma_read_run(disk, after, next, at + t.len, position + t.len);
        assert(spliced(
            next, at + t.len, disk.subrange(position + t.len, position + remaining),
        ) =~= goal);
    }
}

proof fn lemma_write_run(disk: Seq<u8>, dma: Seq<u8>, data: Seq<u8>, at: int, position: int)
    requires
        disk.len() as int % (SECTOR_SIZE as int) == 0,
        disk.len() <= u32::MAX,
        dma.len() == DMA_BUFFER_SIZE,
        0 <= at <= data.len(),
        0 <= position,
        position + (data.len() - at) <= disk.len(),
    ensures
        write_run(disk, dma, data, at, position) == spliced(
            disk, position, data.subrange(at, data.len() as int),
        ),
    decreases data.len() - at,
{
    let remaining = data.len() - at;
    let goal = spliced(disk, position, data.subrange(at, data.len() as int));
    if remaining == 0 {
        assert(goal =~= disk);
    } else {
        let t = transfer_of(position, remaining);
        lemma_transfer_of(position, remaining);
        transfers_fit(t, position, remaining);
        lemma_on_disk(disk.len() as int, t, position, remaining);
        let part = data.subrange(at, at + t.len);
        writing_changes_the_request_alone(disk, dma, t, position, remaining, part);
        let reads = t.offset != 0 || t.len as int % (SECTOR_SIZE as int) != 0;
        let before = if reads { dma_after_read(dma, disk, t) } else { dma };
        let filled = spliced(before, t.offset as int, part);
        let next = disk_after_write(disk, filled, t);
        assert(next == spliced(disk, position, part));
        lemma_write_run(next, filled, data, at + t.len, position + t.len);
        assert(spliced(next, position + t.len, data.subrange(at + t.len, data.len() as int))
            =~= goal);
    }
}

/// A request to read gives exactly the bytes of the disk at its position.
pub proof fn read_gives_the_bytes_of_the_disk(
    disk: Seq<u8>, dma: Seq<u8>, buffer: Seq<u8>, position: int,
)
    requires
        disk.len() as int % (SECTOR_SIZE as int) == 0,
        disk.len() <= u32::MAX,
        dma.len() == DMA_BUFFER_SIZE,
        0 <= position,
        position + buffer.len() <= disk.len(),
    ensures
        read_run(disk, dma, buffer, 0, position) == disk.subrange(
            position, position + buffer.len(),
        ),
{
    lemma_read_run(disk, dma, buffer, 0, position);
    assert(read_run(disk, dma, buffer, 0, position) =~= disk.subrange(
        position, position + buffer.len(),
    ));
}

/// A request to write puts its bytes on the disk and changes no others, and a request to
/// read there then gives them back.
pub proof fn read_gives_back_what_was_written(
    disk: Seq<u8>, dma: Seq<u8>, data: Seq<u8>, buffer: Seq<u8>, position: int,
)
    requires
        disk.len() as int % (SECTOR_SIZE as int) == 0,
        disk.len() <= u32::MAX,
        dma.len() == DMA_BUFFER_SIZE,
        0 <= position,
        position + data.len() <= disk.len(),
        buffer.len() == data.len(),
    ensures
        write_run(disk, dma, data, 0, position) == spliced(disk, position, data),
        read_run(write_run(disk, dma, data, 0, position), dma, buffer, 0, position) == data,
{
    lemma_write_run(disk, dma, data, 0, position);
    assert(data.subrange(0, data.len() as int) =~= data);
    let after = write_run(disk, dma, data, 0, position);
    read_gives_the_bytes_of_the_disk(after, dma, buffer, position);
    assert(after.subrange(position, position + data.len()) =~= data);
}

/// The files on the drives.
pub struct FloppyDeviceDriver {
    pub attached: [DriveType; 2],
    pub selected_drive: Option<DriveSelect>,
    pub next_instance: u32,
    pub open_instances: BTreeMap<u32, DriveSelect>,
}

/// What is done about a request.
pub enum FloppyReply {
    Done(IoResult),
    /// Read the bytes of a disk part by part, and answer with their number.
    Read(BlockRequest),
    /// Write the bytes of a disk part by part, and answer with their number.
    Write(BlockRequest),
}

impl FloppyDeviceDriver {
    pub fn new() -> (r: Self)
        ensures
            r.attached@ == seq![DriveType::Absent, DriveType::Absent],
            r.selected_drive is None,
            r.next_instance == 1,
            r.open_instances@ == Map::<u32, DriveSelect>::empty(),
    {
        let r: FloppyDeviceDriver = FloppyDeviceDriver {
            attached: [DriveType::Absent, DriveType::Absent],
            selected_drive: None,
            next_instance: 1,
            open_instances: BTreeMap::new(),
        };
        assert(r.attached@ =~= seq![DriveType::Absent, DriveType::Absent]);
        r
    }

    pub fn set_device(&mut self, index: usize, drive_type: DriveType)
        requires
            index < 2,
        ensures
            final(self).attached@ == old(self).attached@.update(index as int, drive_type),
            final(self).selected_drive == old(self).selected_drive,
            final(self).next_instance == old(self).next_instance,
            final(self).open_instances == old(self).open_instances,
    {
        self.attached[index] = drive_type;
        assert(self.attached@ =~= old(self).attached@.update(index as int, drive_type));
    }

    /// Select a drive. Gives the new value of the output register, unless the drive is
    /// selected already. `dor` is what the register holds.
    pub fn select_drive(&mut self, drive: DriveSelect, dor: u8) -> (r: Option<u8>)
        ensures
            final(self).selected_drive == Some(drive),
            r == (if old(self).selected_drive == Some(drive) {
                None
            } else {
                Some(((dor / 4) * 4 + drive.number()) as u8)
            }),
            final(self).attached == old(self).attached,
            final(self).next_instance == old(self).next_instance,
            final(self).open_instances == old(self).open_instances,
    {
        match self.selected_drive {
            Some(selected) => {
                if selected == drive {
                    return None;
                }
            },
            None => {},
        }
        let flag: u8 = match drive {
            DriveSelect::Primary => 0,
            DriveSelect::Secondary => 1,
        };
        self.selected_drive = Some(drive);
        Some((dor / 4) * 4 + flag)
    }

    /// Open a file on a drive.
    pub fn open(&mut self, sub_driver: u32) -> (r: IoResult)
        ensures
            sub_driver >= 2 ==> r == IoResult::Err(IoError::NotFound) && *final(self) == *old(self),
            sub_driver < 2 ==> r == IoResult::Ok(old(self).next_instance) && final(self).open_instances@ == old(self).open_instances@.insert(
                old(self).next_instance,
                if sub_driver == 1 { DriveSelect::Secondary } else { DriveSelect::Primary },
            ) && final(self).next_instance == (old(self).next_instance + 1) % 0x1_0000_0000,
            final(self).attached == old(self).attached,
            final(self).selected_drive == old(self).selected_drive,
    {
        if sub_driver as usize >= 2 {
            return Err(IoError::NotFound);
        }
        let drive: DriveSelect = if sub_driver == 1 {
            DriveSelect::Secondary
        } else {
            DriveSelect::Primary
        };
        let instance: u32 = self.next_instance;
        self.next_instance = self.next_instance.wrapping_add(1);
        self.open_instances.insert(instance, drive);
        Ok(instance)
    }

    /// Begin to read or write some bytes of a file.
    fn request(&self, instance: u32, len: u32, offset: u32) -> (r: Result<
        Option<BlockRequest>,
        IoError,
    >)
        requires
            offset + len <= u32::MAX,
        ensures
            match r {
                Err(e) => e == IoError::FileHandleInvalid && len > 0
                    && !self.open_instances@.dom().contains(instance),
                Ok(None) => len == 0,
                Ok(Some(b)) => len > 0 && self.open_instances@.dom().contains(instance) && b.wf()
                    && b == (BlockRequest {
                    drive: self.open_instances@[instance],
                    buf_offset: 0,
                    position: offset as usize,
                    total: len as usize,
                }),
            },
    {
        if len == 0 {
            return Ok(None);
        }
        match self.open_instances.get(&instance) {
            None => Err(IoError::FileHandleInvalid),
            Some(drive) => Ok(
                Some(
                    BlockRequest {
                        drive: *drive,
                        buf_offset: 0,
                        position: offset as usize,
                        total: len as usize,
                    },
                ),
            ),
        }
    }

    /// Close a file.
    pub fn close(&mut self, instance: u32) -> (r: IoResult)
        ensures
            r == (if old(self).open_instances@.dom().contains(instance) {
                IoResult::Ok(1u32)
            } else {
                IoResult::Err(IoError::FileHandleInvalid)
            }),
            final(self).open_instances@ == old(self).open_instances@.remove(instance),
            final(self).attached == old(self).attached,
            final(self).selected_drive == old(self).selected_drive,
            final(self).next_instance == old(self).next_instance,
    {
        let ghost before = self.open_instances@;
        match self.open_instances.remove(&instance) {
            Some(_) => Ok(1),
            None => {
                assert(before.remove(instance) =~= before);
                Err(IoError::FileHandleInvalid)
            },
        }
    }

    /// Serve a request. Requests for no bytes are over at once.
    pub fn handle_driver_request(&mut self, command: DriverCommand, message: &Message) -> (r:
        FloppyReply)
        requires
            command == DriverCommand::Read || command == DriverCommand::Write ==>
                message.args@[3] + message.args@[2] <= u32::MAX,
        ensures
            final(self).attached == old(self).attached,
            final(self).selected_drive == old(self).selected_drive,
            (final(self).open_instances@, final(self).next_instance, r) == answered(
                old(self).open_instances@, old(self).next_instance, command, message.args@,
            ),
            final(self).next_instance as int == (if command == DriverCommand::OpenRaw
                && message.args@[0] < 2 {
                (old(self).next_instance + 1) % 0x1_0000_0000
            } else {
                old(self).next_instance as int
            }),
            ({
                let file = message.args@[0];
                let files = old(self).open_instances@;
                let len = message.args@[2];
                match command {
                    DriverCommand::OpenRaw => if file >= 2 {
                        r == FloppyReply::Done(Err(IoError::NotFound)) && *final(self) == *old(self)
                    } else {
                        &&& r == FloppyReply::Done(Ok(old(self).next_instance))
                        &&& final(self).open_instances@ == files.insert(
                            old(self).next_instance,
                            if file == 1 { DriveSelect::Secondary } else { DriveSelect::Primary },
                        )
                    },
                    DriverCommand::Close => {
                        &&& r == FloppyReply::Done(
                            if files.dom().contains(file) {
                                Ok(1u32)
                            } else {
                                Err(IoError::FileHandleInvalid)
                            },
                        )
                        &&& final(self).open_instances@ == files.remove(file)
                    },
                    DriverCommand::Read => {
                        &&& *final(self) == *old(self)
                        &&& r == block_reply(files, file, len, message.args@[3], false)
                    },
                    DriverCommand::Write => {
                        &&& *final(self) == *old(self)
                        &&& r == block_reply(files, file, len, message.args@[3], true)
                    },
                    _ => r == FloppyReply::Done(Err(IoError::UnsupportedOperation))
                        && *final(self) == *old(self),
                }
            }),
    {
        match command {
            DriverCommand::OpenRaw => FloppyReply::Done(self.open(message.args[0])),
            DriverCommand::Close => FloppyReply::Done(self.close(message.args[0])),
            DriverCommand::Read => match self.request(
                message.args[0],
                message.args[2],
                message.args[3],
            ) {
                Err(e) => FloppyReply::Done(Err(e)),
                Ok(None) => FloppyReply::Done(Ok(0)),
                Ok(Some(b)) => FloppyReply::Read(b),
            },
            DriverCommand::Write => match self.request(
                message.args[0],
                message.args[2],
                message.args[3],
            ) {
                Err(e) => FloppyReply::Done(Err(e)),
                Ok(None) => FloppyReply::Done(Ok(0)),
                Ok(Some(b)) => FloppyReply::Write(b),
            },
            _ => FloppyReply::Done(Err(IoError::UnsupportedOperation)),
        }
    }
}

/// The drive of each open file, the next file, and the answer after a request.
pub open spec fn answered(
    files: Map<u32, DriveSelect>, next: u32, command: DriverCommand, args: Seq<u32>,
) -> (Map<u32, DriveSelect>, u32, FloppyReply) {
    match command {
        DriverCommand::OpenRaw => if args[0] >= 2 {
            (files, next, FloppyReply::Done(Err(IoError::NotFound)))
        } else {
            (
                files.insert(
                    next, if args[0] == 1 { DriveSelect::Secondary } else { DriveSelect::Primary },
                ),
                ((next + 1) % 0x1_0000_0000) as u32,
                FloppyReply::Done(Ok(next)),
            )
        },
        DriverCommand::Close => (
            files.remove(args[0]),
            next,
            FloppyReply::Done(
                if files.dom().contains(args[0]) {
                    Ok(1u32)
                } else {
                    Err(IoError::FileHandleInvalid)
                },
            ),
        ),
        DriverCommand::Read => (files, next, block_reply(files, args[0], args[2], args[3], false)),
        DriverCommand::Write => (files, next, block_reply(files, args[0], args[2], args[3], true)),
        _ => (files, next, FloppyReply::Done(Err(IoError::UnsupportedOperation))),
    }
}

/// A file that was opened leads to its drive: it is read and written there, from the place and for as many
/// bytes as was asked. Once it is closed it leads nowhere. Other files stay.
pub proof fn files_lead_to_their_drive(
    files: Map<u32, DriveSelect>, next: u32, drive: u32, args: Seq<u32>, other: u32,
)
    requires
        drive < 2,
        args.len() == 6,
        args[0] == next,
        args[2] > 0,
        other != next,
    ensures
        ({
            let (opened, later, reply) = answered(
                files, next, DriverCommand::OpenRaw, args.update(0, drive),
            );
            let block = BlockRequest {
                drive: if drive == 0 { DriveSelect::Primary } else { DriveSelect::Secondary },
                buf_offset: 0,
                position: args[3] as usize,
                total: args[2] as usize,
            };
            let (closed, _, over) = answered(opened, later, DriverCommand::Close, args);
            &&& reply == FloppyReply::Done(Ok(next))
            &&& later != next
            &&& answered(opened, later, DriverCommand::Read, args) == (
                opened,
                later,
                FloppyReply::Read(block),
            )
            &&& answered(opened, later, DriverCommand::Write, args) == (
                opened,
                later,
                FloppyReply::Write(block),
            )
            &&& over == FloppyReply::Done(Ok(1u32))
            &&& answered(closed, later, DriverCommand::Read, args).2 == FloppyReply::Done(
                Err(IoError::FileHandleInvalid),
            )
            &&& opened.dom().contains(other) == files.dom().contains(other)
            &&& files.dom().contains(other) ==> opened[other] == files[other] && closed[other]
                == files[other]
        }),
{
}

/// What is done about a request for bytes.
pub open spec fn block_reply(
    files: Map<u32, DriveSelect>, file: u32, len: u32, offset: u32, write: bool,
) -> FloppyReply {
    if len == 0 {
        FloppyReply::Done(Ok(0))
    } else if !files.dom().contains(file) {
        FloppyReply::Done(Err(IoError::FileHandleInvalid))
    } else {
        let b = BlockRequest {
            drive: files[file],
            buf_offset: 0,
            position: offset as usize,
            total: len as usize,
        };
        if write { FloppyReply::Write(b) } else { FloppyReply::Read(b) }
    }
}

/// The digits of a text as a number of eight bits, which wraps. Other bytes are skipped.
pub open spec fn digits_u8(s: Seq<u8>) -> u8
    decreases s.len(),
{
    if s.len() == 0 {
        0
    } else if 48 <= s.last() <= 57 {
        ((digits_u8(s.drop_last()) * 10 + (s.last() - 48)) % 256) as u8
    } else {
        digits_u8(s.drop_last())
    }
}

/// Read a number of eight bits.
pub fn parse_u8(s: &[u8]) -> (r: u8)
    ensures
        r == digits_u8(s@),
{
    let mut result: u8 = 0;
    let mut i: usize = 0;
    assert(s@.subrange(0, 0) =~= Seq::empty());
    while i < s.len()
        invariant
            i <= s@.len(),
            result == digits_u8(s@.subrange(0, i as int)),
        decreases s@.len() - i,
    {
        let b: u8 = s[i];
        assert(s@.subrange(0, i + 1).drop_last() =~= s@.subrange(0, i as int));
        if b >= 48 && b <= 57 {
            let next: u16 = (result as u16 * 10 + (b - 48) as u16) % 256;
            result = next as u8;
        }
        i += 1;
    }
    assert(s@.subrange(0, s@.len() as int) =~= s@);
    result
}

/// The name of the device for the drives that were found, counted from 1.
pub fn device_name(count: u8) -> (r: [u8; 3])
    requires
        1 <= count <= 9,
    ensures
        r@ == seq![0x46u8, 0x44, (0x30 + count) as u8],
{
    let r: [u8; 3] = [0x46, 0x44, 0x30 + count];
    assert(r@ =~= seq![0x46u8, 0x44, (0x30 + count) as u8]);
    r
}

} // verus!

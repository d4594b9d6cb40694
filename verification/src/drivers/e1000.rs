//! The network card driver.
use vstd::prelude::*;

use crate::api::io::{DriverCommand, IoError, IoResult, Message};
use crate::bits::{byte0, byte1, byte2, byte3, u32_bytes};
use crate::text::sub_bytes;

verus! {

/// The size of the buffer of a descriptor.
pub const BUFFER_SIZE: usize = 1024;
pub const RX_DESC_COUNT: usize = 8;
pub const TX_DESC_COUNT: usize = 8;
/// The size of a descriptor in memory.
pub const DESCRIPTOR_SIZE: u32 = 16;

pub const REG_CTRL: u16 = 0x00;
pub const REG_STATUS: u16 = 0x08;
pub const REG_ICR: u16 = 0xc0;
pub const REG_IMS: u16 = 0xd0;
pub const REG_RCTL: u16 = 0x100;
pub const REG_TCTL: u16 = 0x400;
pub const REG_RDBAL: u16 = 0x2800;
pub const REG_RDBAH: u16 = 0x2804;
pub const REG_RDLEN: u16 = 0x2808;
pub const REG_RDH: u16 = 0x2810;
pub const REG_RDT: u16 = 0x2818;
pub const REG_TDBAL: u16 = 0x3800;
pub const REG_TDBAH: u16 = 0x3804;
pub const REG_TDLEN: u16 = 0x3808;
pub const REG_TDH: u16 = 0x3810;
pub const REG_TDT: u16 = 0x3818;

/// What is done to a register of the card.
#[derive(Clone, Copy, PartialEq, Eq, Structural, Debug)]
pub enum RegisterAction {
    Write(u16, u32),
    SetFlags(u16, u32),
    ClearFlags(u16, u32),
    /// Wait until all of the flags are clear.
    AwaitClear(u16, u32),
    /// Wait until all of the flags are set.
    AwaitSet(u16, u32),
}

/// The card, at an address in memory.
#[derive(Clone, Copy, PartialEq, Eq, Structural, Debug)]
pub struct E1000Controller {
    pub mmio_base: u32,
}

impl E1000Controller {
    pub fn new(mmio_base: u32) -> (r: Self)
        ensures
            r.mmio_base == mmio_base,
    {
        E1000Controller { mmio_base }
    }

    /// The address of a register.
    pub fn register(&self, address: u16) -> (r: u32)
        requires
            self.mmio_base + address <= u32::MAX,
        ensures
            r == self.mmio_base + address,
    {
        self.mmio_base + address as u32
    }

    /// A register with flags set.
    pub fn set_flags(prev: u32, flags: u32) -> (r: u32)
        ensures
            r == prev | flags,
    {
        prev | flags
    }

    /// A register with flags cleared.
    pub fn clear_flags(prev: u32, flags: u32) -> (r: u32)
        ensures
            r == prev & !flags,
    {
        prev & !flags
    }

    /// The address of the card on the network: four bytes of one register and two of
    /// the next.
    pub fn get_mac_address(ral: u32, rah: u32) -> (r: [u8; 6])
        ensures
            r@ == seq![byte0(ral), byte1(ral), byte2(ral), byte3(ral), byte0(rah), byte1(rah)],
    {
        let (a, b, c, d): (u8, u8, u8, u8) = u32_bytes(ral);
        let (e, f, _g, _h): (u8, u8, u8, u8) = u32_bytes(rah);
        let r: [u8; 6] = [a, b, c, d, e, f];
        assert(r@ =~= seq![byte0(ral), byte1(ral), byte2(ral), byte3(ral), byte0(rah), byte1(rah)]);
        r
    }
}

/// A packet that arrives: its buffer, and what the card says of it.
#[derive(Clone, Copy, PartialEq, Eq, Structural, Debug)]
pub struct RxDescriptor {
    pub addr_low: u32,
    pub addr_high: u32,
    pub length: u16,
    pub checksum: u16,
    pub status: u8,
    pub error: u8,
    pub special: u16,
}

impl RxDescriptor {
    /// A packet is there.
    pub open spec fn done(&self) -> bool {
        self.status % 2 == 1
    }

    pub fn is_done(&self) -> (r: bool)
        ensures
            r == self.done(),
    {
        self.status % 2 == 1
    }

    pub fn clear_status(&mut self)
        ensures
            *final(self) == (RxDescriptor { status: 0, ..*old(self) }),
            !final(self).done(),
    {
        self.status = 0;
    }
}

/// A packet that is sent, or a part of one.
#[derive(Clone, Copy, PartialEq, Eq, Structural, Debug)]
pub struct TxDescriptor {
    pub addr_low: u32,
    pub addr_high: u32,
    pub length: u16,
    pub checksum_offset: u8,
    pub command: u8,
    pub status: u8,
    pub checksum_start: u8,
    pub special: u16,
}

/// The last part of a packet, and the others.
pub const TX_LAST: u8 = 0b0000_1011;
pub const TX_MORE: u8 = 0b0000_1000;

/// The address of the buffer of a descriptor.
pub open spec fn buffer_address(paddr: u32, index: int) -> u32 {
    (paddr + index * BUFFER_SIZE) as u32
}

/// The descriptors of buffers that follow one another in memory.
pub fn rx_ring(rx_paddr: u32) -> (r: Vec<RxDescriptor>)
    requires
        rx_paddr + RX_DESC_COUNT * BUFFER_SIZE <= u32::MAX,
    ensures
        r@ == Seq::new(
            RX_DESC_COUNT as nat,
            |i: int|
                RxDescriptor {
                    addr_low: buffer_address(rx_paddr, i),
                    addr_high: 0,
                    length: 0,
                    checksum: 0,
                    status: 0,
                    error: 0,
                    special: 0,
                },
        ),
{
    let mut r: Vec<RxDescriptor> = Vec::new();
    let mut i: usize = 0;
    while i < RX_DESC_COUNT
        invariant
            i <= RX_DESC_COUNT,
            rx_paddr + RX_DESC_COUNT * BUFFER_SIZE <= u32::MAX,
            r@.len() == i,
            forall|k: int|
                0 <= k < i ==> #[trigger] r@[k] == (RxDescriptor {
                    addr_low: buffer_address(rx_paddr, k),
                    addr_high: 0,
                    length: 0,
                    checksum: 0,
                    status: 0,
                    error: 0,
                    special: 0,
                }),
        decreases RX_DESC_COUNT - i,
    {
        r.push(
            RxDescriptor {
                addr_low: rx_paddr + (i * BUFFER_SIZE) as u32,
                addr_high: 0,
                length: 0,
                checksum: 0,
                status: 0,
                error: 0,
                special: 0,
            },
        );
        i += 1;
    }
    assert(r@ =~= Seq::new(
        RX_DESC_COUNT as nat,
        |i: int|
            RxDescriptor {
                addr_low: buffer_address(rx_paddr, i),
                addr_high: 0,
                length: 0,
                checksum: 0,
                status: 0,
                error: 0,
                special: 0,
            },
    ));
    r
}

/// The descriptors of buffers to send from, which follow one another in memory.
pub fn tx_ring(tx_paddr: u32) -> (r: Vec<TxDescriptor>)
    requires
        tx_paddr + TX_DESC_COUNT * BUFFER_SIZE <= u32::MAX,
    ensures
        r@ == Seq::new(
            TX_DESC_COUNT as nat,
            |i: int| empty_tx(buffer_address(tx_paddr, i)),
        ),
{
    let mut r: Vec<TxDescriptor> = Vec::new();
    let mut i: usize = 0;
    while i < TX_DESC_COUNT
        invariant
            i <= TX_DESC_COUNT,
            tx_paddr + TX_DESC_COUNT * BUFFER_SIZE <= u32::MAX,
            r@.len() == i,
            forall|k: int|
                0 <= k < i ==> #[trigger] r@[k] == empty_tx(buffer_address(tx_paddr, k)),
        decreases TX_DESC_COUNT - i,
    {
        r.push(
            TxDescriptor {
                addr_low: tx_paddr + (i * BUFFER_SIZE) as u32,
                addr_high: 0,
                length: 0,
                checksum_offset: 0,
                command: 0,
                status: 0,
                checksum_start: 0,
                special: 0,
            },
        );
        i += 1;
    }
    assert(r@ =~= Seq::new(
        TX_DESC_COUNT as nat,
        |i: int| empty_tx(buffer_address(tx_paddr, i)),
    ));
    r
}

/// A descriptor of a buffer with nothing to send.
pub open spec fn empty_tx(addr: u32) -> TxDescriptor {
    TxDescriptor {
        addr_low: addr,
        addr_high: 0,
        length: 0,
        checksum_offset: 0,
        command: 0,
        status: 0,
        checksum_start: 0,
        special: 0,
    }
}

/// What sets the card up, with its descriptors at an address: those of packets that
/// arrive first, then those of packets to send.
pub open spec fn setup_actions(desc_paddr: u32) -> Seq<RegisterAction> {
    seq![
        RegisterAction::SetFlags(REG_CTRL, 0x0400_0000),
        RegisterAction::AwaitClear(REG_CTRL, 0x0400_0000),
        RegisterAction::SetFlags(REG_CTRL, 0x60),
        RegisterAction::Write(REG_IMS, 0xc0),
        RegisterAction::Write(REG_RDBAL, desc_paddr),
        RegisterAction::Write(REG_RDBAH, 0),
        RegisterAction::Write(REG_RDLEN, 128),
        RegisterAction::Write(REG_RDH, 0),
        RegisterAction::Write(REG_RDT, 7),
        RegisterAction::ClearFlags(REG_RCTL, 0x3_0000),
        RegisterAction::SetFlags(REG_RCTL, 0x0401_800a),
        RegisterAction::Write(REG_TDBAL, (desc_paddr + 128) as u32),
        RegisterAction::Write(REG_TDBAH, 0),
        RegisterAction::Write(REG_TDLEN, 128),
        RegisterAction::Write(REG_TDH, 0),
        RegisterAction::Write(REG_TDT, 0),
        RegisterAction::SetFlags(REG_TCTL, 0x0a),
        RegisterAction::AwaitSet(REG_STATUS, 2),
    ]
}

/// What sets the card up: reset it, let it find the speed of the link, give it its
/// descriptors, let it receive and send, and wait for the link.
pub fn setup(desc_paddr: u32) -> (r: Vec<RegisterAction>)
    requires
        desc_paddr + 128 <= u32::MAX,
    ensures
        r@ == setup_actions(desc_paddr),
{
    let rx_len: u32 = RX_DESC_COUNT as u32 * DESCRIPTOR_SIZE;
    let tx_len: u32 = TX_DESC_COUNT as u32 * DESCRIPTOR_SIZE;
    let r: Vec<RegisterAction> = vec![
        RegisterAction::SetFlags(REG_CTRL, 0x0400_0000),
        RegisterAction::AwaitClear(REG_CTRL, 0x0400_0000),
        RegisterAction::SetFlags(REG_CTRL, 0x60),
        RegisterAction::Write(REG_IMS, 0xc0),
        RegisterAction::Write(REG_RDBAL, desc_paddr),
        RegisterAction::Write(REG_RDBAH, 0),
        RegisterAction::Write(REG_RDLEN, rx_len),
        RegisterAction::Write(REG_RDH, 0),
        RegisterAction::Write(REG_RDT, RX_DESC_COUNT as u32 - 1),
        RegisterAction::ClearFlags(REG_RCTL, 0x3_0000),
        RegisterAction::SetFlags(REG_RCTL, 0x0401_800a),
        RegisterAction::Write(REG_TDBAL, desc_paddr + rx_len),
        RegisterAction::Write(REG_TDBAH, 0),
        RegisterAction::Write(REG_TDLEN, tx_len),
        RegisterAction::Write(REG_TDH, 0),
        RegisterAction::Write(REG_TDT, 0),
        RegisterAction::SetFlags(REG_TCTL, 0x0a),
        RegisterAction::AwaitSet(REG_STATUS, 2),
    ];
    assert(r@ =~= setup_actions(desc_paddr));
    r
}

/// A part of a packet to be put in the buffer of a descriptor.
pub struct TxPart {
    pub index: usize,
    pub data: Vec<u8>,
    pub length: u16,
    pub command: u8,
}

/// The same, over a sequence.
pub struct TxPartModel {
    pub index: int,
    pub data: Seq<u8>,
    pub length: u16,
    pub command: u8,
}

impl View for TxPart {
    type V = TxPartModel;

    open spec fn view(&self) -> TxPartModel {
        TxPartModel {
            index: self.index as int,
            data: self.data@,
            length: self.length,
            command: self.command,
        }
    }
}

pub open spec fn part_models(v: Seq<TxPart>) -> Seq<TxPartModel> {
    Seq::new(v.len(), |i: int| v[i]@)
}

/// The parts of a packet, from a descriptor on.
pub open spec fn tx_parts(data: Seq<u8>, index: int) -> Seq<TxPartModel>
    decreases data.len(),
{
    if data.len() == 0 {
        Seq::empty()
    } else {
        let last = data.len() <= BUFFER_SIZE;
        let n = if last { data.len() as int } else { BUFFER_SIZE as int };
        seq![
            TxPartModel {
                index,
                data: data.subrange(0, n),
                length: n as u16,
                command: if last { TX_LAST } else { TX_MORE },
            },
        ] + tx_parts(data.skip(n), (index + 1) % (TX_DESC_COUNT as int))
    }
}

/// A descriptor that has a part to send: all but the address of its buffer is set.
pub open spec fn with_part(d: TxDescriptor, part: TxPartModel) -> TxDescriptor {
    TxDescriptor {
        addr_low: d.addr_low,
        addr_high: d.addr_high,
        length: part.length,
        checksum_offset: 0,
        command: part.command,
        status: 0,
        checksum_start: 0,
        special: 0,
    }
}

/// The descriptors after parts were put in, one after another.
pub open spec fn with_parts(ring: Seq<TxDescriptor>, parts: Seq<TxPartModel>) -> Seq<TxDescriptor>
    decreases parts.len(),
{
    if parts.len() == 0 {
        ring
    } else {
        let i = parts[0].index;
        with_parts(ring.update(i, with_part(ring[i], parts[0])), parts.skip(1))
    }
}

/// The rings of descriptors: where the next packet arrives, and where the next is sent
/// from.
#[derive(Clone, Copy, PartialEq, Eq, Structural, Debug)]
pub struct EthernetDriver {
    pub rx_ring_index: usize,
    pub tx_ring_index: usize,
}

impl EthernetDriver {
    pub open spec fn wf(&self) -> bool {
        self.rx_ring_index < RX_DESC_COUNT && self.tx_ring_index < TX_DESC_COUNT
    }

    pub fn new() -> (r: Self)
        ensures
            r.wf(),
            r.rx_ring_index == 0,
            r.tx_ring_index == 0,
    {
        EthernetDriver { rx_ring_index: 0, tx_ring_index: 0 }
    }

    /// The buffer with the next packet, where one has arrived.
    pub fn get_next_rx_buffer(&self, ring: &Vec<RxDescriptor>) -> (r: Option<usize>)
        requires
            self.wf(),
            ring@.len() == RX_DESC_COUNT,
        ensures
            r == (if ring@[self.rx_ring_index as int].done() {
                Some(self.rx_ring_index)
            } else {
                None
            }),
    {
        let index: usize = self.rx_ring_index;
        if !ring[index].is_done() {
            return None;
        }
        Some(index)
    }

    /// The packet was taken: its descriptor is free, and the card is told so.
    pub fn mark_current_rx_read(&mut self, ring: &mut Vec<RxDescriptor>) -> (r: RegisterAction)
        requires
            old(self).wf(),
            old(ring)@.len() == RX_DESC_COUNT,
        ensures
            final(self).wf(),
            final(self).rx_ring_index as int == (old(self).rx_ring_index + 1) % (
            RX_DESC_COUNT as int),
            final(self).tx_ring_index == old(self).tx_ring_index,
            final(ring)@ == old(ring)@.update(
                old(self).rx_ring_index as int,
                RxDescriptor { status: 0, ..old(ring)@[old(self).rx_ring_index as int] },
            ),
            r == RegisterAction::Write(REG_RDT, old(self).rx_ring_index as u32),
    {
        let index: usize = self.rx_ring_index;
        let mut desc: RxDescriptor = ring[index];
        desc.clear_status();
        ring.set(index, desc);
        self.rx_ring_index = Self::next_rdesc_index(index);
        RegisterAction::Write(REG_RDT, index as u32)
    }

    fn next_tdesc_index(index: usize) -> (r: usize)
        requires
            index < TX_DESC_COUNT,
        ensures
            r as int == (index + 1) % (TX_DESC_COUNT as int),
            r < TX_DESC_COUNT,
    {
        (index + 1) % TX_DESC_COUNT
    }

    fn next_rdesc_index(index: usize) -> (r: usize)
        requires
            index < RX_DESC_COUNT,
        ensures
            r as int == (index + 1) % (RX_DESC_COUNT as int),
            r < RX_DESC_COUNT,
    {
        (index + 1) % RX_DESC_COUNT
    }

    /// Send a packet, in parts that fit the buffers. Gives the number of bytes and the
    /// parts for the buffers, and tells the card where they end.
    pub fn tx(&mut self, data: &[u8], ring: &mut Vec<TxDescriptor>) -> (r: (
        usize,
        Vec<TxPart>,
        RegisterAction,
    ))
        requires
            old(self).wf(),
            old(ring)@.len() == TX_DESC_COUNT,
        ensures
            final(self).wf(),
            final(self).rx_ring_index == old(self).rx_ring_index,
            r.0 == data@.len(),
            part_models(r.1@) == tx_parts(data@, old(self).tx_ring_index as int),
            final(ring)@ == with_parts(old(ring)@, part_models(r.1@)),
            final(ring)@.len() == TX_DESC_COUNT,
            final(self).tx_ring_index as int == (old(self).tx_ring_index + r.1@.len()) % (
            TX_DESC_COUNT as int),
            r.2 == RegisterAction::Write(REG_TDT, final(self).tx_ring_index as u32),
    {
        let mut out: Vec<TxPart> = Vec::new();
        let mut cur_index: usize = self.tx_ring_index;
        let n: usize = data.len();
        let mut done: usize = 0;
        let ghost goal = tx_parts(data@, cur_index as int);
        let ghost ring_goal = with_parts(ring@, goal);
        assert(data@.skip(0) =~= data@);
        assert(part_models(out@) =~= Seq::empty());
        assert(Seq::<TxPartModel>::empty() + goal =~= goal);
        while done < n
            invariant
                n == data@.len(),
                done <= n,
                *self == *old(self),
                self.wf(),
                goal == tx_parts(data@, old(self).tx_ring_index as int),
                ring_goal == with_parts(old(ring)@, goal),
                cur_index < TX_DESC_COUNT,
                ring@.len() == TX_DESC_COUNT,
                cur_index as int == (old(self).tx_ring_index + out@.len()) % (TX_DESC_COUNT as int),
                part_models(out@) + tx_parts(data@.skip(done as int), cur_index as int) == goal,
                with_parts(ring@, tx_parts(data@.skip(done as int), cur_index as int)) == ring_goal,
            decreases n - done,
        {
            let remaining: usize = n - done;
            let len: usize = if remaining < BUFFER_SIZE { remaining } else { BUFFER_SIZE };
            let last: bool = remaining == len;
            let ghost rest = data@.skip(done as int);
            let ghost parts = part_models(out@);
            let ghost before = ring@;
            let part: TxPart = TxPart {
                index: cur_index,
                data: sub_bytes(data, done, done + len),
                length: len as u16,
                command: if last { TX_LAST } else { TX_MORE },
            };
            let next: usize = Self::next_tdesc_index(cur_index);
            let mut desc: TxDescriptor = ring[cur_index];
            desc.length = part.length;
            desc.checksum_offset = 0;
            desc.command = part.command;
            desc.status = 0;
            desc.checksum_start = 0;
            desc.special = 0;
            ring.set(cur_index, desc);
            proof {
                assert(rest.subrange(0, len as int) =~= data@.subrange(
                    done as int, done + len,
                ));
                assert(rest.skip(len as int) =~= data@.skip(done + len));
                let tail = tx_parts(data@.skip(done + len), next as int);
                let all = tx_parts(rest, cur_index as int);
                assert(all == seq![part@] + tail);
                assert(all.skip(1) =~= tail);
                assert(ring@ =~= before.update(
                    cur_index as int, with_part(before[cur_index as int], part@),
                ));
            }
            out.push(part);
            proof {
                assert(part_models(out@) =~= parts.push(part@));
                assert(part_models(out@) + tx_parts(data@.skip(done + len), next as int)
                    =~= parts + tx_parts(rest, cur_index as int));
            }
            done += len;
            cur_index = next;
        }
        assert(data@.skip(n as int) =~= Seq::empty());
        assert(tx_parts(data@.skip(n as int), cur_index as int) =~= Seq::empty());
        assert(part_models(out@) =~= goal);
        self.tx_ring_index = cur_index;
        (n, out, RegisterAction::Write(REG_TDT, cur_index as u32))
    }
}

/// A packet of at most as many parts as there are descriptors fills the descriptors from
/// the current one on, one part each, and leaves the others as they are.
pub proof fn parts_fill_the_ring(ring: Seq<TxDescriptor>, data: Seq<u8>, index: int, k: int)
    requires
        ring.len() == TX_DESC_COUNT,
        0 <= index < TX_DESC_COUNT,
        tx_parts(data, index).len() <= TX_DESC_COUNT,
        0 <= k < TX_DESC_COUNT,
    ensures
        ({
            let parts = tx_parts(data, index);
            let at = (index + k) % (TX_DESC_COUNT as int);
            with_parts(ring, parts)[at] == (if k < parts.len() {
                with_part(ring[at], parts[k])
            } else {
                ring[at]
            })
        }),
    decreases data.len(),
{
    let parts = tx_parts(data, index);
    if data.len() > 0 {
        let last = data.len() <= BUFFER_SIZE;
        let n = if last { data.len() as int } else { BUFFER_SIZE as int };
        let next = (index + 1) % (TX_DESC_COUNT as int);
        let tail = tx_parts(data.skip(n), next);
        let first = ring.update(index, with_part(ring[index], parts[0]));
        assert(parts.skip(1) =~= tail);
        let at = (index + k) % (TX_DESC_COUNT as int);
        if k == 0 {
            parts_fill_the_ring(first, data.skip(n), next, 7);
            assert((next + 7) % 8 == index);
        } else {
            parts_fill_the_ring(first, data.skip(n), next, k - 1);
            assert((next + (k - 1)) % 8 == at);
            assert(at != index);
            if k < parts.len() {
                assert(parts[k] == tail[k - 1]);
            }
        }
    }
}

/// The data of parts, one after another.
pub open spec fn parts_data(parts: Seq<TxPartModel>) -> Seq<u8>
    decreases parts.len(),
{
    if parts.len() == 0 { Seq::empty() } else { parts[0].data + parts_data(parts.skip(1)) }
}

/// The parts of a packet are the packet, and only the last is marked as such.
pub proof fn parts_make_the_packet(data: Seq<u8>, index: int)
    ensures
        parts_data(tx_parts(data, index)) == data,
        forall|i: int|
            0 <= i < tx_parts(data, index).len() ==> (#[trigger] tx_parts(data, index)[i]).command
                == (if i + 1 == tx_parts(data, index).len() { TX_LAST } else { TX_MORE })
                && 1 <= tx_parts(data, index)[i].data.len() <= BUFFER_SIZE
                && tx_parts(data, index)[i].length == tx_parts(data, index)[i].data.len(),
    decreases data.len(),
{
    let all = tx_parts(data, index);
    if data.len() == 0 {
        assert(parts_data(all) =~= data);
    } else {
        let last = data.len() <= BUFFER_SIZE;
        let n = if last { data.len() as int } else { BUFFER_SIZE as int };
        let next = (index + 1) % (TX_DESC_COUNT as int);
        let rest = tx_parts(data.skip(n), next);
        parts_make_the_packet(data.skip(n), next);
        assert(all.skip(1) =~= rest);
        assert(data.subrange(0, n) + data.skip(n) =~= data);
        assert forall|i: int| 0 <= i < all.len() implies (#[trigger] all[i]).command == (if i + 1
            == all.len() { TX_LAST } else { TX_MORE }) && 1 <= all[i].data.len() <= BUFFER_SIZE
            && all[i].length == all[i].data.len() by {
            if i > 0 {
                assert(all[i] == rest[i - 1]);
            } else if last {
                assert(data.skip(n) =~= Seq::empty());
                assert(rest =~= Seq::empty());
            } else {
                assert(data.skip(n).len() > 0);
                assert(rest.len() > 0);
            }
        }
    }
}

/// A read that waits for a packet.
#[derive(Clone, Copy, PartialEq, Eq, Structural, Debug)]
pub struct PendingRead {
    pub buffer_ptr: u32,
    pub buffer_len: u32,
    pub request_id: u32,
}

/// What is done about a request.
pub enum EthernetReply {
    Done(IoResult),
    /// A packet is there: copy its first bytes from a buffer, free it, and answer with
    /// their number.
    Receive { index: usize, len: u32 },
    /// Send the data of the request, and answer with its length.
    Send { buffer_ptr: u32, buffer_len: u32 },
    /// The read waits.
    Waiting,
}

/// The card as a device.
pub struct EthernetDevice {
    pub driver: EthernetDriver,
    pub next_instance: u32,
    pub pending_read: Option<PendingRead>,
}

/// How much of a buffer a read takes.
pub open spec fn read_len(buffer_len: u32) -> u32 {
    if buffer_len < BUFFER_SIZE { buffer_len } else { BUFFER_SIZE as u32 }
}

/// What a read does, given the next descriptor.
pub open spec fn read_reply(index: usize, done: bool, buffer_len: u32) -> EthernetReply {
    if done {
        EthernetReply::Receive { index, len: read_len(buffer_len) }
    } else {
        EthernetReply::Waiting
    }
}

impl EthernetDevice {
    pub fn new(driver: EthernetDriver) -> (r: Self)
        ensures
            r.driver == driver,
            r.next_instance == 1,
            r.pending_read is None,
    {
        EthernetDevice { driver, next_instance: 1, pending_read: None }
    }

    fn read(&self, buffer_len: u32, ring: &Vec<RxDescriptor>) -> (r: EthernetReply)
        requires
            self.driver.wf(),
            ring@.len() == RX_DESC_COUNT,
        ensures
            r == read_reply(
                self.driver.rx_ring_index, ring@[self.driver.rx_ring_index as int].done(),
                buffer_len,
            ),
    {
        match self.driver.get_next_rx_buffer(ring) {
            None => EthernetReply::Waiting,
            Some(index) => {
                let len: u32 = if (buffer_len as usize) < BUFFER_SIZE {
                    buffer_len
                } else {
                    BUFFER_SIZE as u32
                };
                EthernetReply::Receive { index, len }
            },
        }
    }

    /// Serve a request. A read without a packet waits, in the place of one that waited
    /// before.
    pub fn handle_request(
        &mut self, command: DriverCommand, message: &Message, ring: &Vec<RxDescriptor>,
    ) -> (r: EthernetReply)
        requires
            old(self).driver.wf(),
            ring@.len() == RX_DESC_COUNT,
        ensures
            final(self).driver == old(self).driver,
            final(self).next_instance == (if command == DriverCommand::OpenRaw {
                ((old(self).next_instance + 1) % 0x1_0000_0000) as u32
            } else {
                old(self).next_instance
            }),
            r == (match command {
                DriverCommand::OpenRaw => EthernetReply::Done(Ok(old(self).next_instance)),
                DriverCommand::Close => EthernetReply::Done(Ok(1u32)),
                DriverCommand::Read => read_reply(
                    old(self).driver.rx_ring_index,
                    ring@[old(self).driver.rx_ring_index as int].done(),
                    message.args@[2],
                ),
                DriverCommand::Write => EthernetReply::Send {
                    buffer_ptr: message.args@[1],
                    buffer_len: message.args@[2],
                },
                _ => EthernetReply::Done(Err(IoError::UnsupportedOperation)),
            }),
            final(self).pending_read == (if r is Waiting {
                Some(
                    PendingRead {
                        buffer_ptr: message.args@[1],
                        buffer_len: message.args@[2],
                        request_id: message.unique_id,
                    },
                )
            } else {
                old(self).pending_read
            }),
    {
        match command {
            DriverCommand::OpenRaw => {
                let instance: u32 = self.next_instance;
                self.next_instance = self.next_instance.wrapping_add(1);
                EthernetReply::Done(Ok(instance))
            },
            DriverCommand::Close => EthernetReply::Done(Ok(1)),
            DriverCommand::Read => {
                let reply: EthernetReply = self.read(message.args[2], ring);
                match reply {
                    EthernetReply::Waiting => {
                        self.pending_read = Some(
                            PendingRead {
                                buffer_ptr: message.args[1],
                                buffer_len: message.args[2],
                                request_id: message.unique_id,
                            },
                        );
                    },
                    _ => {},
                }
                reply
            },
            DriverCommand::Write => EthernetReply::Send {
                buffer_ptr: message.args[1],
                buffer_len: message.args[2],
            },
            _ => EthernetReply::Done(Err(IoError::UnsupportedOperation)),
        }
    }

    /// The card interrupted: where a packet is there and a read waits, the read gets it.
    pub fn handle_interrupt(&mut self, cause: u32, ring: &Vec<RxDescriptor>) -> (r: Option<
        (PendingRead, usize, u32),
    >)
        requires
            old(self).driver.wf(),
            ring@.len() == RX_DESC_COUNT,
        ensures
            final(self).driver == old(self).driver,
            final(self).next_instance == old(self).next_instance,
            ({
                let there = cause != 0 && ring@[old(self).driver.rx_ring_index as int].done();
                match old(self).pending_read {
                    Some(read) => if there {
                        r == Some(
                            (read, old(self).driver.rx_ring_index, read_len(read.buffer_len)),
                        ) && final(self).pending_read is None
                    } else {
                        r is None && final(self).pending_read == old(self).pending_read
                    },
                    None => r is None && final(self).pending_read is None,
                }
            }),
    {
        if cause == 0 {
            return None;
        }
        match self.pending_read {
            None => None,
            Some(read) => match self.read(read.buffer_len, ring) {
                EthernetReply::Receive { index, len } => {
                    self.pending_read = None;
                    Some((read, index, len))
                },
                _ => None,
            },
        }
    }
}

} // verus!

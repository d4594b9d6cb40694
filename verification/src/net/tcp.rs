//! Connections: what a packet does to one, and what is sent for it.
use std::collections::VecDeque;

use vstd::prelude::*;

use crate::api::io::{IoError, IoResult};
use crate::net::address::{AsyncCallback, Completion, Ipv4Address, SocketId, SocketPort};
use crate::text::{push_bytes, sub_bytes};

verus! {

pub const FLAG_FIN: u16 = 0x01;
pub const FLAG_SYN: u16 = 0x02;
pub const FLAG_RST: u16 = 0x04;
pub const FLAG_PSH: u16 = 0x08;
pub const FLAG_ACK: u16 = 0x10;

/// The most bytes that one packet carries.
pub const MSS: usize = 1460;

#[derive(Clone, Copy, PartialEq, Eq, Structural, Debug)]
pub enum TcpState {
    /// The connection is being opened from here.
    SynSent,
    /// The connection is being opened from there.
    SynReceived,
    /// Data can be sent.
    Established,
    /// The other side has closed.
    LastAck,
}

/// What a packet calls for.
#[derive(Clone, Copy, PartialEq, Eq, Structural, Debug)]
pub enum TcpAction {
    /// Hand the data to readers.
    Enqueue,
    /// Drop the packet.
    Discard,
    /// Close without an answer.
    Close,
    /// Answer with a reset.
    Reset,
    /// Answer that the connection is closed.
    FinAck,
    /// The connection is open.
    Connect,
    /// The connection is open, and the other side is told.
    ConnectAck,
}

/// What the header of a packet says.
#[derive(Clone, Copy, PartialEq, Eq, Structural, Debug)]
pub struct TcpHeader {
    pub source_port: u16,
    pub dest_port: u16,
    pub sequence_number: u32,
    pub ack_number: u32,
    pub syn: bool,
    pub ack: bool,
    pub fin: bool,
    pub rst: bool,
}

/// A read that waits for data: where its buffer is, and who waits.
#[derive(Clone, Copy, PartialEq, Eq, Structural, Debug)]
pub struct PendingRead {
    pub buffer_paddr: u32,
    pub buffer_len: usize,
    pub callback: AsyncCallback,
}

/// A packet to be sent.
#[derive(Debug)]
pub struct Segment {
    pub local_address: Ipv4Address,
    pub local_port: SocketPort,
    pub remote_address: Ipv4Address,
    pub remote_port: SocketPort,
    pub sequence: u32,
    pub acknowledged: u32,
    pub flags: u16,
    pub data: Vec<u8>,
}

/// The same, over sequences.
pub struct SegmentModel {
    pub local_address: Seq<u8>,
    pub local_port: SocketPort,
    pub remote_address: Seq<u8>,
    pub remote_port: SocketPort,
    pub sequence: u32,
    pub acknowledged: u32,
    pub flags: u16,
    pub data: Seq<u8>,
}

impl View for Segment {
    type V = SegmentModel;

    open spec fn view(&self) -> SegmentModel {
        SegmentModel {
            local_address: self.local_address@,
            local_port: self.local_port,
            remote_address: self.remote_address@,
            remote_port: self.remote_port,
            sequence: self.sequence,
            acknowledged: self.acknowledged,
            flags: self.flags,
            data: self.data@,
        }
    }
}

/// Data that was copied to the buffer of a read.
pub struct Delivery {
    pub buffer_paddr: u32,
    pub data: Vec<u8>,
}

/// What is to be done after a packet: copy data to a buffer, complete operations, open
/// a socket for the task that waits for the connection, and send a packet.
pub struct Outcome {
    pub delivery: Option<Delivery>,
    pub completions: Vec<Completion>,
    /// Who waits for the connection, and whether it gets a new socket. One without a
    /// new socket is completed with the number of this one.
    pub connected: Option<(AsyncCallback, bool)>,
    pub reply: Option<Segment>,
}

pub struct OutcomeModel {
    pub delivery: Option<(u32, Seq<u8>)>,
    pub completions: Seq<Completion>,
    pub connected: Option<(AsyncCallback, bool)>,
    pub reply: Option<SegmentModel>,
}

impl View for Outcome {
    type V = OutcomeModel;

    open spec fn view(&self) -> OutcomeModel {
        OutcomeModel {
            delivery: match self.delivery {
                Some(d) => Some((d.buffer_paddr, d.data@)),
                None => None,
            },
            completions: self.completions@,
            connected: self.connected,
            reply: match self.reply {
                Some(s) => Some(s@),
                None => None,
            },
        }
    }
}

pub struct TcpConnection {
    pub own_id: SocketId,
    pub local_address: Ipv4Address,
    pub local_port: SocketPort,
    pub remote_address: Ipv4Address,
    pub remote_port: SocketPort,
    pub state: TcpState,
    pub last_sequence_sent: u32,
    pub last_sequence_received: u32,
    pub on_connect: Option<(AsyncCallback, bool)>,
    pub pending_reads: VecDeque<PendingRead>,
    pub available_data: Vec<u8>,
}

/// A connection, over sequences.
#[verifier::ext_equal]
pub struct Conn {
    pub own_id: SocketId,
    pub local_address: Seq<u8>,
    pub local_port: SocketPort,
    pub remote_address: Seq<u8>,
    pub remote_port: SocketPort,
    pub state: TcpState,
    pub last_sequence_sent: u32,
    pub last_sequence_received: u32,
    pub on_connect: Option<(AsyncCallback, bool)>,
    pub pending: Seq<PendingRead>,
    pub available: Seq<u8>,
}

impl View for TcpConnection {
    type V = Conn;

    open spec fn view(&self) -> Conn {
        Conn {
            own_id: self.own_id,
            local_address: self.local_address@,
            local_port: self.local_port,
            remote_address: self.remote_address@,
            remote_port: self.remote_port,
            state: self.state,
            last_sequence_sent: self.last_sequence_sent,
            last_sequence_received: self.last_sequence_received,
            on_connect: self.on_connect,
            pending: self.pending_reads@,
            available: self.available_data@,
        }
    }
}

/// Sequence numbers go round.
pub open spec fn later(n: u32, by: int) -> u32 {
    ((n + by) % 0x1_0000_0000) as u32
}

/// What a packet calls for in a state. A reset closes whatever the state.
pub open spec fn action_for(state: TcpState, sent: u32, header: TcpHeader) -> TcpAction {
    if header.rst {
        TcpAction::Close
    } else {
        match state {
            TcpState::SynSent => if header.syn && header.ack {
                TcpAction::ConnectAck
            } else {
                TcpAction::Reset
            },
            TcpState::SynReceived => if header.ack && header.ack_number == later(sent, 1) {
                TcpAction::Connect
            } else {
                TcpAction::Reset
            },
            TcpState::Established => if header.fin {
                TcpAction::FinAck
            } else if header.syn {
                TcpAction::Reset
            } else {
                TcpAction::Enqueue
            },
            TcpState::LastAck => TcpAction::Close,
        }
    }
}

/// The bytes of a buffer that lie in its first page.
pub open spec fn usable_len(read: PendingRead) -> int {
    let page = 0x1000 - read.buffer_paddr % 0x1000;
    if read.buffer_len < page { read.buffer_len as int } else { page }
}

/// How many bytes a read takes.
pub open spec fn taken(read: PendingRead, data: Seq<u8>) -> int {
    if data.len() < usable_len(read) { data.len() as int } else { usable_len(read) }
}

/// Data goes to the first read that waits, as far as its buffer holds it; the rest is
/// kept.
pub open spec fn delivered(c: Conn, data: Seq<u8>) -> Conn {
    if c.pending.len() == 0 {
        Conn { available: c.available + data, ..c }
    } else {
        Conn {
            pending: c.pending.skip(1),
            available: c.available + data.skip(taken(c.pending[0], data)),
            ..c
        }
    }
}

pub open spec fn delivery_of(c: Conn, data: Seq<u8>) -> Option<(u32, Seq<u8>)> {
    if c.pending.len() == 0 {
        None
    } else {
        Some((c.pending[0].buffer_paddr, data.subrange(0, taken(c.pending[0], data))))
    }
}

pub open spec fn delivery_done(c: Conn, data: Seq<u8>) -> Seq<Completion> {
    if c.pending.len() == 0 {
        Seq::empty()
    } else {
        seq![
            Completion {
                callback: c.pending[0].callback,
                result: Ok(taken(c.pending[0], data) as u32),
            },
        ]
    }
}

/// Every read that waits ends with nothing.
pub open spec fn all_ended(pending: Seq<PendingRead>) -> Seq<Completion> {
    Seq::new(
        pending.len(),
        |i: int| Completion { callback: pending[i].callback, result: Ok(0) },
    )
}

/// A packet without data.
pub open spec fn bare(
    c: Conn, local: Seq<u8>, remote: Seq<u8>, sequence: u32, acknowledged: u32, flags: u16,
) -> SegmentModel {
    SegmentModel {
        local_address: local,
        local_port: c.local_port,
        remote_address: remote,
        remote_port: c.remote_port,
        sequence,
        acknowledged,
        flags,
        data: Seq::empty(),
    }
}

pub open spec fn nothing() -> OutcomeModel {
    OutcomeModel { delivery: None, completions: Seq::empty(), connected: None, reply: None }
}

/// A connection that is open.
pub open spec fn established(c: Conn, local: Seq<u8>, remote: Seq<u8>, header: TcpHeader) -> Conn {
    Conn {
        state: TcpState::Established,
        local_address: local,
        remote_address: remote,
        last_sequence_sent: later(c.last_sequence_sent, 1),
        last_sequence_received: later(header.sequence_number, 1),
        on_connect: None,
        ..c
    }
}

/// A packet that opens the connection. Where the task that gets a new socket is gone,
/// nothing is sent.
pub open spec fn connect_outcome(
    c: Conn, local: Seq<u8>, remote: Seq<u8>, header: TcpHeader, ack: bool, task_found: bool,
) -> OutcomeModel {
    let lost = c.on_connect matches Some((_, true)) && !task_found;
    OutcomeModel {
        connected: if lost { None } else { c.on_connect },
        completions: match c.on_connect {
            Some((callback, false)) => seq![Completion { callback, result: Ok(c.own_id.0) }],
            _ => Seq::empty(),
        },
        reply: if lost || !ack {
            None
        } else {
            Some(
                bare(
                    c, local, remote, later(c.last_sequence_sent, 1),
                    later(header.sequence_number, 1), FLAG_ACK,
                ),
            )
        },
        ..nothing()
    }
}

/// A connection after data arrived.
pub open spec fn enqueued(c: Conn, header: TcpHeader, data: Seq<u8>) -> Conn {
    Conn {
        last_sequence_received: later(header.sequence_number, data.len() as int),
        ..delivered(c, data)
    }
}

/// A connection after the other side closed it.
pub open spec fn closed(c: Conn, header: TcpHeader, data: Seq<u8>) -> Conn {
    let d = if data.len() == 0 { c } else { enqueued(c, header, data) };
    Conn { state: TcpState::LastAck, pending: Seq::empty(), ..d }
}

/// The connection after a packet.
pub open spec fn after_packet(
    c: Conn, local: Seq<u8>, remote: Seq<u8>, header: TcpHeader, data: Seq<u8>,
) -> Conn {
    match action_for(c.state, c.last_sequence_sent, header) {
        TcpAction::Close => Conn { pending: Seq::empty(), ..c },
        TcpAction::Connect => established(c, local, remote, header),
        TcpAction::ConnectAck => established(c, local, remote, header),
        TcpAction::Discard => c,
        TcpAction::Enqueue => if data.len() == 0 { c } else { enqueued(c, header, data) },
        TcpAction::FinAck => closed(c, header, data),
        TcpAction::Reset => c,
    }
}

/// What is done about a packet.
pub open spec fn packet_outcome(
    c: Conn, local: Seq<u8>, remote: Seq<u8>, header: TcpHeader, data: Seq<u8>, task_found: bool,
) -> OutcomeModel {
    match action_for(c.state, c.last_sequence_sent, header) {
        TcpAction::Close => OutcomeModel { completions: all_ended(c.pending), ..nothing() },
        TcpAction::Connect => connect_outcome(c, local, remote, header, false, task_found),
        TcpAction::ConnectAck => connect_outcome(c, local, remote, header, true, task_found),
        TcpAction::Discard => nothing(),
        TcpAction::Enqueue => if data.len() == 0 {
            nothing()
        } else {
            OutcomeModel {
                delivery: delivery_of(c, data),
                completions: delivery_done(c, data),
                connected: None,
                reply: Some(
                    bare(
                        c, local, remote, c.last_sequence_sent,
                        later(header.sequence_number, data.len() as int), FLAG_ACK,
                    ),
                ),
            }
        },
        TcpAction::FinAck => {
            let none = data.len() == 0;
            OutcomeModel {
                delivery: if none { None } else { delivery_of(c, data) },
                completions: if none {
                    all_ended(c.pending)
                } else {
                    delivery_done(c, data) + all_ended(delivered(c, data).pending)
                },
                connected: None,
                reply: Some(
                    bare(
                        c, local, remote, c.last_sequence_sent,
                        later(closed(c, header, data).last_sequence_received, 1),
                        FLAG_FIN | FLAG_ACK,
                    ),
                ),
            }
        },
        TcpAction::Reset => OutcomeModel {
            reply: Some(
                bare(
                    c, local, remote, c.last_sequence_sent, later(header.sequence_number, 1),
                    FLAG_RST | FLAG_ACK,
                ),
            ),
            ..nothing()
        },
    }
}

/// The packets that carry some data: full ones, and the rest in a last one that is
/// marked to be handed on at once.
pub open spec fn segments(c: Conn, data: Seq<u8>) -> Seq<SegmentModel>
    decreases data.len(),
{
    if data.len() == 0 {
        Seq::empty()
    } else {
        let last = data.len() <= MSS;
        let n = if last { data.len() as int } else { MSS as int };
        seq![
            SegmentModel {
                local_address: c.local_address,
                local_port: c.local_port,
                remote_address: c.remote_address,
                remote_port: c.remote_port,
                sequence: c.last_sequence_sent,
                acknowledged: c.last_sequence_received,
                flags: if last { FLAG_ACK | FLAG_PSH } else { FLAG_ACK },
                data: data.subrange(0, n),
            },
        ] + segments(
            Conn { last_sequence_sent: later(c.last_sequence_sent, n), ..c },
            data.skip(n),
        )
    }
}

/// What a read of at most `len` bytes leaves of a connection, what it gives, and its result,
/// if it does not wait.
pub open spec fn read_from(
    c: Conn, len: nat, buffer_paddr: u32, callback: AsyncCallback,
) -> (Conn, Seq<u8>, Option<IoResult>) {
    if c.available.len() > 0 {
        let n = if len < c.available.len() { len as int } else { c.available.len() as int };
        (
            Conn { available: c.available.skip(n), ..c },
            c.available.take(n),
            Some(IoResult::Ok(n as u32)),
        )
    } else if c.state == TcpState::LastAck {
        (c, Seq::empty(), Some(IoResult::Ok(0u32)))
    } else {
        let read = PendingRead { buffer_paddr, buffer_len: len as usize, callback };
        (Conn { pending: c.pending.push(read), ..c }, Seq::empty(), None)
    }
}

pub open spec fn segment_models(v: Seq<Segment>) -> Seq<SegmentModel> {
    Seq::new(v.len(), |i: int| v[i]@)
}

fn smaller(a: usize, b: usize) -> (r: usize)
    ensures
        r == (if a < b { a } else { b }),
{
    if a < b { a } else { b }
}

impl TcpConnection {
    /// A connection that is being opened, from here or from there.
    pub fn new(
        own_id: SocketId,
        local_port: SocketPort,
        remote_address: Ipv4Address,
        remote_port: SocketPort,
        is_outbound: bool,
        on_connect: Option<(AsyncCallback, bool)>,
    ) -> (r: Self)
        ensures
            r@ == (Conn {
                own_id,
                local_address: seq![0u8, 0, 0, 0],
                local_port,
                remote_address: remote_address@,
                remote_port,
                state: if is_outbound { TcpState::SynSent } else { TcpState::SynReceived },
                last_sequence_sent: 0,
                last_sequence_received: 0,
                on_connect,
                pending: Seq::empty(),
                available: Seq::empty(),
            }),
    {
        let r: TcpConnection = TcpConnection {
            own_id,
            local_address: Ipv4Address([0, 0, 0, 0]),
            local_port,
            remote_address,
            remote_port,
            state: if is_outbound { TcpState::SynSent } else { TcpState::SynReceived },
            last_sequence_sent: 0,
            last_sequence_received: 0,
            on_connect,
            pending_reads: VecDeque::new(),
            available_data: Vec::new(),
        };
        assert(r.local_address@ =~= seq![0u8, 0, 0, 0]);
        r
    }

    /// What a packet calls for.
    pub fn action_for_tcp_packet(&self, header: &TcpHeader) -> (r: TcpAction)
        ensures
            r == action_for(self@.state, self@.last_sequence_sent, *header),
    {
        if header.rst {
            return TcpAction::Close;
        }
        match self.state {
            TcpState::SynSent => {
                if !header.syn || !header.ack {
                    return TcpAction::Reset;
                }
                TcpAction::ConnectAck
            },
            TcpState::SynReceived => {
                if !header.ack {
                    return TcpAction::Reset;
                }
                if header.ack_number != self.last_sequence_sent.wrapping_add(1) {
                    return TcpAction::Reset;
                }
                TcpAction::Connect
            },
            TcpState::Established => {
                if header.fin {
                    return TcpAction::FinAck;
                }
                if header.syn {
                    return TcpAction::Reset;
                }
                TcpAction::Enqueue
            },
            TcpState::LastAck => TcpAction::Close,
        }
    }

    /// End every read that waits.
    fn end_reads(&mut self, completions: &mut Vec<Completion>)
        ensures
            final(self)@ == (Conn { pending: Seq::empty(), ..old(self)@ }),
            final(completions)@ == old(completions)@ + all_ended(old(self)@.pending),
    {
        let ghost pending = self.pending_reads@;
        let ghost done = completions@;
        let mut i: Ghost<int> = Ghost(0);
        assert(pending.skip(0) =~= pending);
        while self.pending_reads.len() > 0
            invariant
                0 <= i@ <= pending.len(),
                pending == old(self)@.pending,
                self.pending_reads@ == pending.skip(i@),
                self@ == (Conn { pending: self.pending_reads@, ..old(self)@ }),
                completions@ =~= done + all_ended(pending).subrange(0, i@),
            decreases self.pending_reads@.len(),
        {
            match self.pending_reads.pop_front() {
                Some(read) => {
                    completions.push(Completion { callback: read.callback, result: Ok(0) });
                    proof {
                        assert(read == pending[i@]);
                        assert(self.pending_reads@ =~= pending.skip(i@ + 1));
                        i@ = i@ + 1;
                    }
                },
                None => {},
            }
        }
        assert(i@ == pending.len());
        assert(self.pending_reads@ =~= Seq::empty());
        assert(all_ended(pending).subrange(0, i@) =~= all_ended(pending));
    }

    /// Hand data to the first read that waits, and keep the rest.
    fn deliver(&mut self, data: &[u8], completions: &mut Vec<Completion>) -> (r: Option<Delivery>)
        requires
            old(completions)@.len() == 0,
        ensures
            final(self)@ == delivered(old(self)@, data@),
            final(completions)@ == delivery_done(old(self)@, data@),
            match r {
                None => delivery_of(old(self)@, data@) is None,
                Some(d) => delivery_of(old(self)@, data@) == Some((d.buffer_paddr, d.data@)),
            },
    {
        match self.pending_reads.pop_front() {
            None => {
                push_bytes(&mut self.available_data, data);
                assert(completions@ =~= Seq::empty());
                None
            },
            Some(read) => {
                let page: usize = 0x1000 - (read.buffer_paddr % 0x1000) as usize;
                let usable: usize = smaller(read.buffer_len, page);
                let n: usize = smaller(data.len(), usable);
                assert(n == taken(read, data@));
                let taken_data: Vec<u8> = sub_bytes(data, 0, n);
                let rest: &[u8] = vstd::slice::slice_subrange(data, n, data.len());
                assert(rest@ =~= data@.skip(n as int));
                push_bytes(&mut self.available_data, rest);
                completions.push(Completion { callback: read.callback, result: Ok(n as u32) });
                assert(completions@ =~= delivery_done(old(self)@, data@));
                assert(self.pending_reads@ =~= old(self)@.pending.skip(1));
                Some(Delivery { buffer_paddr: read.buffer_paddr, data: taken_data })
            },
        }
    }

    fn reply(
        &self,
        local: Ipv4Address,
        remote: Ipv4Address,
        sequence: u32,
        acknowledged: u32,
        flags: u16,
    ) -> (r: Segment)
        ensures
            r@ == bare(self@, local@, remote@, sequence, acknowledged, flags),
    {
        let data: Vec<u8> = Vec::new();
        assert(data@ =~= Seq::empty());
        Segment {
            local_address: local,
            local_port: self.local_port,
            remote_address: remote,
            remote_port: self.remote_port,
            sequence,
            acknowledged,
            flags,
            data,
        }
    }

    fn connect(
        &mut self,
        local_addr: Ipv4Address,
        remote_addr: Ipv4Address,
        header: &TcpHeader,
        ack: bool,
        task_found: bool,
    ) -> (r: Outcome)
        ensures
            final(self)@ == established(old(self)@, local_addr@, remote_addr@, *header),
            r@ == connect_outcome(old(self)@, local_addr@, remote_addr@, *header, ack, task_found),
    {
        self.state = TcpState::Established;
        self.local_address = local_addr;
        self.remote_address = remote_addr;
        self.last_sequence_sent = self.last_sequence_sent.wrapping_add(1);
        self.last_sequence_received = header.sequence_number.wrapping_add(1);
        let mut completions: Vec<Completion> = Vec::new();
        let waiting: Option<(AsyncCallback, bool)> = self.on_connect;
        self.on_connect = None;
        assert(completions@ =~= Seq::empty());
        match waiting {
            Some((callback, create)) => {
                if create {
                    if !task_found {
                        return Outcome { delivery: None, completions, connected: None, reply: None };
                    }
                } else {
                    completions.push(Completion { callback, result: Ok(self.own_id.0) });
                    assert(completions@ =~= seq![
                        Completion { callback, result: Ok(self.own_id.0) },
                    ]);
                }
            },
            None => {},
        }
        let reply: Option<Segment> = if ack {
            Some(
                self.reply(
                    local_addr,
                    remote_addr,
                    self.last_sequence_sent,
                    header.sequence_number.wrapping_add(1),
                    FLAG_ACK,
                ),
            )
        } else {
            None
        };
        Outcome { delivery: None, completions, connected: waiting, reply }
    }

    fn take_data(
        &mut self, header: &TcpHeader, data: &[u8], completions: &mut Vec<Completion>,
    ) -> (r: Option<Delivery>)
        requires
            old(completions)@.len() == 0,
        ensures
            final(self)@ == enqueued(old(self)@, *header, data@),
            final(completions)@ == delivery_done(old(self)@, data@),
            match r {
                None => delivery_of(old(self)@, data@) is None,
                Some(d) => delivery_of(old(self)@, data@) == Some((d.buffer_paddr, d.data@)),
            },
    {
        let delivery: Option<Delivery> = self.deliver(data, completions);
        let count: u32 = (data.len() as u64 % 0x1_0000_0000) as u32;
        self.last_sequence_received = header.sequence_number.wrapping_add(count);
        assert(self.last_sequence_received == later(header.sequence_number, data@.len() as int));
        delivery
    }

    /// Take a packet. `task_found` tells whether the task that waits for the
    /// connection is still there.
    pub fn handle_packet(
        &mut self,
        local_addr: Ipv4Address,
        remote_addr: Ipv4Address,
        header: &TcpHeader,
        data: &[u8],
        task_found: bool,
    ) -> (r: Outcome)
        ensures
            final(self)@ == after_packet(old(self)@, local_addr@, remote_addr@, *header, data@),
            r@ == packet_outcome(
                old(self)@, local_addr@, remote_addr@, *header, data@, task_found,
            ),
    {
        let action: TcpAction = self.action_for_tcp_packet(header);
        let mut completions: Vec<Completion> = Vec::new();
        assert(completions@ =~= Seq::empty());
        let ghost before = self@;
        match action {
            TcpAction::Close => {
                self.end_reads(&mut completions);
                assert(completions@ =~= all_ended(before.pending));
                Outcome { delivery: None, completions, connected: None, reply: None }
            },
            TcpAction::Connect => self.connect(local_addr, remote_addr, header, false, task_found),
            TcpAction::ConnectAck => self.connect(local_addr, remote_addr, header, true, task_found),
            TcpAction::Discard => {
                Outcome { delivery: None, completions, connected: None, reply: None }
            },
            TcpAction::Enqueue => {
                if data.len() == 0 {
                    return Outcome { delivery: None, completions, connected: None, reply: None };
                }
                let delivery: Option<Delivery> = self.take_data(header, data, &mut completions);
                let reply: Segment = self.reply(
                    local_addr,
                    remote_addr,
                    self.last_sequence_sent,
                    self.last_sequence_received,
                    FLAG_ACK,
                );
                Outcome { delivery, completions, connected: None, reply: Some(reply) }
            },
            TcpAction::FinAck => {
                let mut delivery: Option<Delivery> = None;
                if data.len() > 0 {
                    delivery = self.take_data(header, data, &mut completions);
                }
                self.state = TcpState::LastAck;
                let ghost mid = completions@;
                let ghost pending = self@.pending;
                self.end_reads(&mut completions);
                assert(mid.len() == 0 ==> completions@ =~= all_ended(pending));
                let reply: Segment = self.reply(
                    local_addr,
                    remote_addr,
                    self.last_sequence_sent,
                    self.last_sequence_received.wrapping_add(1),
                    FLAG_FIN | FLAG_ACK,
                );
                Outcome { delivery, completions, connected: None, reply: Some(reply) }
            },
            TcpAction::Reset => {
                let reply: Segment = self.reply(
                    local_addr,
                    remote_addr,
                    self.last_sequence_sent,
                    header.sequence_number.wrapping_add(1),
                    FLAG_RST | FLAG_ACK,
                );
                Outcome { delivery: None, completions, connected: None, reply: Some(reply) }
            },
        }
    }

    /// Send data over an open connection: gives the result, and the packets to send.
    pub fn write(&mut self, data: &[u8]) -> (r: (Option<IoResult>, Vec<Segment>))
        requires
            data@.len() <= u32::MAX,
        ensures
            ({
                let c = old(self)@;
                if c.state != TcpState::Established {
                    &&& final(self)@ == c
                    &&& r.0 == Some(IoResult::Err(IoError::OperationFailed))
                    &&& r.1@.len() == 0
                } else {
                    &&& final(self)@ == (Conn {
                        last_sequence_sent: later(c.last_sequence_sent, data@.len() as int),
                        ..c
                    })
                    &&& r.0 == Some(IoResult::Ok(data@.len() as u32))
                    &&& segment_models(r.1@) == segments(c, data@)
                }
            }),
    {
        let mut out: Vec<Segment> = Vec::new();
        match self.state {
            TcpState::Established => {},
            _ => return (Some(Err(IoError::OperationFailed)), out),
        }
        let ghost c = self@;
        let n: usize = data.len();
        let mut offset: usize = 0;
        assert(data@.skip(0) =~= data@);
        assert(segment_models(out@) =~= Seq::empty());
        assert(Seq::<SegmentModel>::empty() + segments(c, data@) =~= segments(c, data@));
        while offset < n
            invariant
                n == data@.len(),
                n <= u32::MAX,
                offset <= n,
                c == old(self)@,
                c.state == TcpState::Established,
                self@ == (Conn {
                    last_sequence_sent: later(c.last_sequence_sent, offset as int),
                    ..c
                }),
                segment_models(out@) + segments(self@, data@.skip(offset as int)) == segments(
                    c, data@,
                ),
            decreases n - offset,
        {
            let end: usize = if n - offset < MSS { n } else { offset + MSS };
            let is_last: bool = end == n;
            let chunk: Vec<u8> = sub_bytes(data, offset, end);
            let flags: u16 = if is_last { FLAG_ACK | FLAG_PSH } else { FLAG_ACK };
            let count: u32 = (end - offset) as u32;
            let segment: Segment = Segment {
                local_address: self.local_address,
                local_port: self.local_port,
                remote_address: self.remote_address,
                remote_port: self.remote_port,
                sequence: self.last_sequence_sent,
                acknowledged: self.last_sequence_received,
                flags,
                data: chunk,
            };
            let ghost rest = data@.skip(offset as int);
            let ghost done = segment_models(out@);
            let ghost mid = self@;
            self.last_sequence_sent = self.last_sequence_sent.wrapping_add(count);
            proof {
                assert(rest.subrange(0, count as int) =~= data@.subrange(offset as int, end as int));
                assert(rest.skip(count as int) =~= data@.skip(end as int));
                assert(segments(mid, rest) == seq![segment@] + segments(
                    self@, data@.skip(end as int),
                ));
            }
            out.push(segment);
            assert(segment_models(out@) =~= done.push(segment@));
            assert(segment_models(out@) + segments(self@, data@.skip(end as int)) =~= done
                + segments(mid, rest));
            offset = end;
        }
        assert(data@.skip(n as int) =~= Seq::empty());
        assert(segments(self@, data@.skip(n as int)) =~= Seq::empty());
        assert(segment_models(out@) =~= segments(c, data@));
        (Some(Ok(n as u32)), out)
    }

    /// Read what has arrived. Where nothing has, the read waits, unless the other side
    /// has closed.
    pub fn read(
        &mut self, buffer: &mut [u8], buffer_paddr: u32, callback: AsyncCallback,
    ) -> (r: Option<IoResult>)
        ensures
            ({
                let c = old(self)@;
                let n = if old(buffer)@.len() < c.available.len() {
                    old(buffer)@.len() as int
                } else {
                    c.available.len() as int
                };
                if c.available.len() > 0 {
                    &&& final(self)@ == (Conn { available: c.available.skip(n), ..c })
                    &&& final(buffer)@ == c.available.subrange(0, n) + old(buffer)@.skip(n)
                    &&& r == Some(IoResult::Ok(n as u32))
                } else if c.state == TcpState::LastAck {
                    &&& final(self)@ == c
                    &&& final(buffer)@ == old(buffer)@
                    &&& r == Some(IoResult::Ok(0u32))
                } else {
                    &&& final(self)@ == (Conn {
                        pending: c.pending.push(
                            PendingRead {
                                buffer_paddr,
                                buffer_len: old(buffer)@.len() as usize,
                                callback,
                            },
                        ),
                        ..c
                    })
                    &&& final(buffer)@ == old(buffer)@
                    &&& r is None
                }
            }),
            ({
                let (after, got, result) = read_from(
                    old(self)@, old(buffer)@.len(), buffer_paddr, callback,
                );
                &&& final(self)@ == after
                &&& final(buffer)@ == got + old(buffer)@.skip(got.len() as int)
                &&& r == result
            }),
    {
        let have: usize = self.available_data.len();
        let len: usize = buffer.len();
        if have > 0 {
            let n: usize = smaller(len, have);
            let ghost available = self.available_data@;
            let mut i: usize = 0;
            while i < n
                invariant
                    i <= n,
                    n <= available.len(),
                    n <= len,
                    len == old(buffer)@.len(),
                    self@ == old(self)@,
                    self.available_data@ == available,
                    buffer@.len() == len,
                    buffer@ =~= available.subrange(0, i as int) + old(buffer)@.skip(i as int),
                decreases n - i,
            {
                buffer[i] = self.available_data[i];
                i += 1;
            }
            let rest: Vec<u8> = self.available_data.split_off(n);
            self.available_data = rest;
            assert(self.available_data@ =~= available.skip(n as int));
            assert(buffer@ =~= available.take(n as int) + old(buffer)@.skip(n as int));
            return Some(Ok(n as u32));
        }
        assert(buffer@ =~= Seq::<u8>::empty() + old(buffer)@.skip(0));
        match self.state {
            TcpState::LastAck => return Some(Ok(0)),
            _ => {},
        }
        self.pending_reads.push_back(PendingRead { buffer_paddr, buffer_len: len, callback });
        None
    }
}

/// The data of packets, one after another.
pub open spec fn carried(segments: Seq<SegmentModel>) -> Seq<u8>
    decreases segments.len(),
{
    if segments.len() == 0 {
        Seq::empty()
    } else {
        segments[0].data + carried(segments.skip(1))
    }
}

/// The packets of a write carry its data, all of it and in order; none is empty or over
/// the size that a packet may have, and the last alone is to be handed on at once.
pub proof fn segments_carry_the_data(c: Conn, data: Seq<u8>)
    ensures
        carried(segments(c, data)) == data,
        forall|i: int|
            0 <= i < segments(c, data).len() ==> 1 <= (#[trigger] segments(c, data)[i]).data.len()
                <= MSS,
        forall|i: int|
            0 <= i < segments(c, data).len() ==> (#[trigger] segments(c, data)[i]).flags == (if i
                + 1 == segments(c, data).len() {
                FLAG_ACK | FLAG_PSH
            } else {
                FLAG_ACK
            }),
    decreases data.len(),
{
    let all = segments(c, data);
    if data.len() == 0 {
        assert(carried(all) =~= data);
    } else {
        let last = data.len() <= MSS;
        let n = if last { data.len() as int } else { MSS as int };
        let next = Conn { last_sequence_sent: later(c.last_sequence_sent, n), ..c };
        let rest = segments(next, data.skip(n));
        segments_carry_the_data(next, data.skip(n));
        assert(all.skip(1) =~= rest);
        assert(data.subrange(0, n) + data.skip(n) =~= data);
        assert forall|i: int| 0 <= i < all.len() implies 1 <= (#[trigger] all[i]).data.len() <= MSS
            && all[i].flags == (if i + 1 == all.len() { FLAG_ACK | FLAG_PSH } else { FLAG_ACK }) by {
            if i > 0 {
                assert(all[i] == rest[i - 1]);
            } else if last {
                assert(data.skip(n) =~= Seq::empty());
                assert(rest =~= Seq::empty());
            } else {
                assert(data.skip(n).len() > 0);
                assert(rest.len() > 0);
            }
        }
    }
}

proof fn lemma_later(n: u32, a: int, b: int)
    requires
        0 <= a,
        0 <= b,
    ensures
        later(later(n, a), b) == later(n, a + b),
        later(n, 0) == n,
{
}

/// Each packet of a write has the number that follows the bytes before it.
pub proof fn segments_are_numbered(c: Conn, data: Seq<u8>, i: int)
    requires
        0 <= i < segments(c, data).len(),
    ensures
        segments(c, data)[i].sequence == later(c.last_sequence_sent, i * MSS as int),
    decreases data.len(),
{
    let last = data.len() <= MSS;
    let n = if last { data.len() as int } else { MSS as int };
    let next = Conn { last_sequence_sent: later(c.last_sequence_sent, n), ..c };
    let rest = segments(next, data.skip(n));
    if i > 0 {
        assert(segments(c, data)[i] == rest[i - 1]);
        assert(!last) by {
            if last {
                assert(data.skip(n) =~= Seq::empty());
                assert(rest =~= Seq::empty());
            }
        }
        segments_are_numbered(next, data.skip(n), i - 1);
        assert((i - 1) * MSS + MSS == i * MSS);
        lemma_later(c.last_sequence_sent, MSS as int, (i - 1) * MSS as int);
    } else {
        lemma_later(c.last_sequence_sent, 0, 0);
    }
}

/// Bytes arrive in order and none is lost: what a packet hands to the read that waits,
/// and what is kept, are what was kept before and the data of the packet. Where two
/// reads wait at once, later data may overtake what is kept.
pub proof fn received_in_order(c: Conn, header: TcpHeader, data: Seq<u8>)
    requires
        c.pending.len() <= 1,
        c.pending.len() == 1 ==> c.available.len() == 0,
    ensures
        ({
            let after = enqueued(c, header, data);
            let handed = match delivery_of(c, data) {
                Some((_, d)) => d,
                None => Seq::empty(),
            };
            &&& handed + after.available == c.available + data
            &&& after.pending.len() == 0
        }),
{
    let after = enqueued(c, header, data);
    if c.pending.len() == 0 {
        assert(Seq::<u8>::empty() + after.available =~= c.available + data);
    } else {
        let t = taken(c.pending[0], data);
        assert(data.subrange(0, t) + (c.available + data.skip(t)) =~= c.available + data);
    }
}

/// A reset ends a connection's reads in every state, and is not answered.
pub proof fn reset_always_closes(
    c: Conn, local: Seq<u8>, remote: Seq<u8>, header: TcpHeader, data: Seq<u8>, task_found: bool,
)
    requires
        header.rst,
    ensures
        after_packet(c, local, remote, header, data).pending.len() == 0,
        packet_outcome(c, local, remote, header, data, task_found).reply is None,
        packet_outcome(c, local, remote, header, data, task_found).completions == all_ended(
            c.pending,
        ),
{
}

/// What a packet hands to a read that waits.
pub open spec fn handed(o: OutcomeModel) -> Seq<u8> {
    match o.delivery {
        Some((_, d)) => d,
        None => Seq::empty(),
    }
}

/// A packet that an open connection takes: it is no reset, and does not ask to open anew.
pub open spec fn belongs(c: Conn, header: TcpHeader) -> bool {
    c.state == TcpState::Established && !header.rst && (header.fin || !header.syn)
}

/// No byte that arrives over an open connection is lost, doubled or moved, whether or not the
/// packet closes it: what is handed to the read that waits, followed by what is kept, is what
/// was kept before, followed by the data of the packet. Where several reads wait while bytes
/// are kept, later bytes may overtake those.
pub proof fn no_byte_of_a_packet_is_lost(
    c: Conn, local: Seq<u8>, remote: Seq<u8>, header: TcpHeader, data: Seq<u8>, task_found: bool,
)
    requires
        belongs(c, header),
        c.pending.len() <= 1,
        c.pending.len() == 1 ==> c.available.len() == 0,
    ensures
        handed(packet_outcome(c, local, remote, header, data, task_found)) + after_packet(
            c, local, remote, header, data,
        ).available == c.available + data,
{
    let o = packet_outcome(c, local, remote, header, data, task_found);
    let after = after_packet(c, local, remote, header, data);
    if data.len() == 0 {
        assert(handed(o) + after.available =~= c.available + data);
    } else {
        received_in_order(c, header, data);
        assert(handed(o) + after.available =~= c.available + data);
    }
}

/// The first read that waits gets the beginning of the data: as much as there is, as its
/// buffer holds, and as lies in the page of its buffer. It is told how much that was. Where
/// the packet closes the connection, the other reads end with nothing; else they wait on.
pub proof fn the_first_reader_is_served(
    c: Conn, local: Seq<u8>, remote: Seq<u8>, header: TcpHeader, data: Seq<u8>, task_found: bool,
)
    requires
        belongs(c, header),
        c.pending.len() > 0,
        data.len() > 0,
    ensures
        ({
            let o = packet_outcome(c, local, remote, header, data, task_found);
            let after = after_packet(c, local, remote, header, data);
            let read = c.pending[0];
            let room = 0x1000 - read.buffer_paddr % 0x1000;
            let n = handed(o).len() as int;
            &&& o.delivery matches Some((paddr, d)) && paddr == read.buffer_paddr
            &&& handed(o) == data.take(n)
            &&& n <= data.len() && n <= read.buffer_len && n <= room
            &&& n == data.len() || n == read.buffer_len || n == room
            &&& after.available == c.available + data.skip(n)
            &&& o.completions.len() > 0
            &&& o.completions[0].callback == read.callback
            &&& o.completions[0].result == IoResult::Ok(n as u32)
            &&& header.fin ==> after.pending.len() == 0 && o.completions.len() == c.pending.len()
                && forall|i: int|
                1 <= i < c.pending.len() ==> (#[trigger] o.completions[i]).callback
                    == c.pending[i].callback && o.completions[i].result == IoResult::Ok(0u32)
            &&& !header.fin ==> after.pending == c.pending.skip(1) && o.completions.len() == 1
        }),
{
    let n = taken(c.pending[0], data);
    assert(data.subrange(0, n) =~= data.take(n));
    let o = packet_outcome(c, local, remote, header, data, task_found);
    if header.fin {
        assert forall|i: int| 1 <= i < c.pending.len() implies (#[trigger] o.completions[i]).callback
            == c.pending[i].callback && o.completions[i].result == IoResult::Ok(0u32) by {
            assert(o.completions[i] == all_ended(c.pending.skip(1))[i - 1]);
        }
    }
}

/// Data that no read waits for is kept behind what is there, and nobody is told of it. Where
/// nothing arrives nothing is kept, and reads that wait end only when the connection closes.
pub proof fn unread_data_is_kept(
    c: Conn, local: Seq<u8>, remote: Seq<u8>, header: TcpHeader, data: Seq<u8>, task_found: bool,
)
    requires
        belongs(c, header),
        c.pending.len() == 0 || data.len() == 0,
    ensures
        ({
            let o = packet_outcome(c, local, remote, header, data, task_found);
            let after = after_packet(c, local, remote, header, data);
            &&& o.delivery is None
            &&& after.available == c.available + data
            &&& !header.fin ==> o.completions.len() == 0 && after.pending == c.pending
            &&& header.fin ==> after.pending.len() == 0 && o.completions.len() == c.pending.len()
                && forall|i: int|
                0 <= i < c.pending.len() ==> (#[trigger] o.completions[i]).callback
                    == c.pending[i].callback && o.completions[i].result == IoResult::Ok(0u32)
        }),
{
    assert(c.available + Seq::<u8>::empty() =~= c.available);
    if data.len() == 0 {
        assert(data =~= Seq::empty());
    }
}

/// A packet in order is answered with the number of the byte that follows it, where closing
/// takes one number. Nothing is sent for a packet without data that does not close. The
/// connection is open as long as the other side has not closed it, and its own numbers and
/// addresses stay.
pub proof fn packets_in_order_are_acknowledged(
    c: Conn, local: Seq<u8>, remote: Seq<u8>, header: TcpHeader, data: Seq<u8>, task_found: bool,
)
    requires
        belongs(c, header),
        header.sequence_number == c.last_sequence_received,
    ensures
        ({
            let o = packet_outcome(c, local, remote, header, data, task_found);
            let after = after_packet(c, local, remote, header, data);
            let end = header.sequence_number + data.len();
            &&& after.state == (if header.fin { TcpState::LastAck } else { TcpState::Established })
            &&& after.last_sequence_received as int == end % 0x1_0000_0000
            &&& after.last_sequence_sent == c.last_sequence_sent
            &&& after.own_id == c.own_id && after.on_connect == c.on_connect
            &&& after.local_address == c.local_address && after.local_port == c.local_port
            &&& after.remote_address == c.remote_address && after.remote_port == c.remote_port
            &&& o.connected is None
            &&& o.reply.is_some() == (data.len() > 0 || header.fin)
            &&& o.reply matches Some(s) ==> {
                &&& s.acknowledged as int == (end + if header.fin { 1int } else { 0 })
                    % 0x1_0000_0000
                &&& s.sequence == c.last_sequence_sent
                &&& s.flags == (if header.fin { 0x11u16 } else { 0x10u16 })
                &&& s.local_address == local && s.local_port == c.local_port
                &&& s.remote_address == remote && s.remote_port == c.remote_port
                &&& s.data.len() == 0
            }
        }),
{
    assert(0x01u16 | 0x10u16 == 0x11u16) by (bit_vector);
    let end = header.sequence_number + data.len();
    assert((end % 0x1_0000_0000 + 1) % 0x1_0000_0000 == (end + 1) % 0x1_0000_0000);
}

/// A connection opens with a packet that answers its request, or that confirms its own answer
/// with the next number, and with no other. Where it opens, both sides have used one number,
/// and whoever waits for the connection is told or gets a socket.
pub proof fn only_an_answer_opens(
    c: Conn, local: Seq<u8>, remote: Seq<u8>, header: TcpHeader, data: Seq<u8>, task_found: bool,
)
    requires
        c.state == TcpState::SynSent || c.state == TcpState::SynReceived,
    ensures
        ({
            let o = packet_outcome(c, local, remote, header, data, task_found);
            let after = after_packet(c, local, remote, header, data);
            let opens = !header.rst && header.ack && if c.state == TcpState::SynSent {
                header.syn
            } else {
                header.ack_number as int == (c.last_sequence_sent + 1) % 0x1_0000_0000
            };
            &&& opens == (after.state == TcpState::Established)
            &&& opens ==> {
                &&& after.last_sequence_sent as int == (c.last_sequence_sent + 1) % 0x1_0000_0000
                &&& after.last_sequence_received as int == (header.sequence_number + 1)
                    % 0x1_0000_0000
                &&& after.local_address == local && after.remote_address == remote
                &&& after.on_connect is None
                &&& c.on_connect matches Some((callback, false)) ==> o.completions.len() == 1
                    && o.completions[0].callback == callback && o.completions[0].result
                    == IoResult::Ok(c.own_id.0)
                &&& c.on_connect matches Some((_, true)) ==> o.completions.len() == 0
                    && o.connected == (if task_found { c.on_connect } else { None })
                &&& c.state == TcpState::SynReceived ==> o.reply is None
                &&& c.state == TcpState::SynSent && !(c.on_connect is Some && c.on_connect.unwrap().1
                    && !task_found) ==> {
                    &&& o.reply matches Some(s) && s.sequence == after.last_sequence_sent
                        && s.acknowledged == after.last_sequence_received && s.flags == 0x10
                }
            }
            &&& !opens && !header.rst ==> {
                &&& after == c
                &&& o.completions.len() == 0 && o.connected is None
                &&& o.reply matches Some(s) && s.flags == 0x14 && s.acknowledged as int == (
                header.sequence_number + 1) % 0x1_0000_0000
            }
            &&& o.delivery is None
            &&& after.available == c.available
        }),
{
    assert(0x04u16 | 0x10u16 == 0x14u16) by (bit_vector);
}

/// Reads give back what was kept, in order and without a gap, as much as fits. A read finds the
/// end only where nothing is kept and the other side has closed; else it waits behind those
/// that wait already, and the packet that comes next serves it.
pub proof fn reads_continue_the_stream(
    c: Conn, len: nat, buffer_paddr: u32, callback: AsyncCallback,
)
    requires
        len <= usize::MAX,
        c.available.len() <= u32::MAX,
    ensures
        ({
            let (after, got, result) = read_from(c, len, buffer_paddr, callback);
            &&& got + after.available == c.available
            &&& got.len() <= len
            &&& got.len() == len || after.available.len() == 0
            &&& after.state == c.state
            &&& result.is_none() == (c.available.len() == 0 && c.state != TcpState::LastAck)
            &&& result matches Some(x) ==> x == IoResult::Ok(got.len() as u32) && after.pending
                == c.pending
            &&& result is None ==> {
                &&& after.pending.len() == c.pending.len() + 1
                &&& after.pending.drop_last() == c.pending
                &&& after.pending.last().buffer_paddr == buffer_paddr
                &&& after.pending.last().buffer_len == len
                &&& after.pending.last().callback == callback
            }
        }),
{
    let (after, got, result) = read_from(c, len, buffer_paddr, callback);
    assert(got + after.available =~= c.available);
    if result is None {
        assert(after.pending.drop_last() =~= c.pending);
    }
}

/// Every packet of a write goes between the ends of the connection, and tells what was
/// received last.
pub proof fn segments_are_addressed(c: Conn, data: Seq<u8>, i: int)
    requires
        0 <= i < segments(c, data).len(),
    ensures
        ({
            let s = segments(c, data)[i];
            &&& s.local_address == c.local_address && s.local_port == c.local_port
            &&& s.remote_address == c.remote_address && s.remote_port == c.remote_port
            &&& s.acknowledged == c.last_sequence_received
        }),
    decreases data.len(),
{
    let n = if data.len() <= MSS { data.len() as int } else { MSS as int };
    let next = Conn { last_sequence_sent: later(c.last_sequence_sent, n), ..c };
    if i > 0 {
        assert(segments(c, data)[i] == segments(next, data.skip(n))[i - 1]);
        segments_are_addressed(next, data.skip(n), i - 1);
    }
}

/// A packet that resets the connection, or that comes after the other side has closed it,
/// brings nothing: reads that wait end with nothing, what was kept can still be read, and
/// nothing is sent.
pub proof fn nothing_comes_after_the_end(
    c: Conn, local: Seq<u8>, remote: Seq<u8>, header: TcpHeader, data: Seq<u8>, task_found: bool,
)
    requires
        header.rst || c.state == TcpState::LastAck,
    ensures
        ({
            let o = packet_outcome(c, local, remote, header, data, task_found);
            let after = after_packet(c, local, remote, header, data);
            &&& after.available == c.available && after.state == c.state
            &&& after.last_sequence_received == c.last_sequence_received
            &&& after.pending.len() == 0
            &&& o.delivery is None && o.reply is None && o.connected is None
            &&& o.completions.len() == c.pending.len()
            &&& forall|i: int|
                0 <= i < c.pending.len() ==> (#[trigger] o.completions[i]).callback
                    == c.pending[i].callback && o.completions[i].result == IoResult::Ok(0u32)
        }),
{
}

/// The header of a packet as the other side sees it.
pub open spec fn header_of(s: SegmentModel) -> TcpHeader {
    TcpHeader {
        source_port: s.local_port.0,
        dest_port: s.remote_port.0,
        sequence_number: s.sequence,
        ack_number: s.acknowledged,
        fin: s.flags % 2 == 1,
        syn: s.flags / 2 % 2 == 1,
        rst: s.flags / 4 % 2 == 1,
        ack: s.flags / 16 % 2 == 1,
    }
}

/// A connection after some packets, one after another.
pub open spec fn after_segments(c: Conn, s: Seq<SegmentModel>) -> Conn
    decreases s.len(),
{
    if s.len() == 0 {
        c
    } else {
        after_packet(
            after_segments(c, s.drop_last()), s.last().remote_address, s.last().local_address,
            header_of(s.last()), s.last().data,
        )
    }
}

proof fn lemma_carried_last(s: Seq<SegmentModel>)
    requires
        s.len() > 0,
    ensures
        carried(s) == carried(s.drop_last()) + s.last().data,
    decreases s.len(),
{
    if s.len() == 1 {
        reveal_with_fuel(carried, 2);
        assert(s.skip(1) =~= Seq::empty());
        assert(s.drop_last() =~= Seq::empty());
        assert(carried(s) =~= carried(s.drop_last()) + s.last().data);
    } else {
        lemma_carried_last(s.skip(1));
        assert(s.skip(1).drop_last() =~= s.drop_last().skip(1));
        assert(s.skip(1).last() == s.last());
        assert(carried(s) =~= carried(s.drop_last()) + s.last().data);
    }
}

proof fn lemma_segments_arrive(p: Conn, s: Seq<SegmentModel>)
    requires
        p.state == TcpState::Established,
        p.pending.len() == 0,
        forall|i: int|
            0 <= i < s.len() ==> (#[trigger] s[i]).flags == 0x10u16 || s[i].flags == 0x18u16,
    ensures
        ({
            let q = after_segments(p, s);
            &&& q.state == TcpState::Established
            &&& q.pending.len() == 0
            &&& q.available == p.available + carried(s)
        }),
    decreases s.len(),
{
    if s.len() == 0 {
        assert(p.available + carried(s) =~= p.available);
    } else {
        let front = s.drop_last();
        assert forall|i: int| 0 <= i < front.len() implies (#[trigger] front[i]).flags == 0x10u16
            || front[i].flags == 0x18u16 by {
            assert(s[i].flags == 0x10u16 || s[i].flags == 0x18u16);
        }
        lemma_segments_arrive(p, front);
        lemma_carried_last(s);
        let mid = after_segments(p, front);
        assert(s[s.len() - 1].flags == 0x10u16 || s[s.len() - 1].flags == 0x18u16);
        let h = header_of(s.last());
        no_byte_of_a_packet_is_lost(
            mid, s.last().remote_address, s.last().local_address, h, s.last().data, true,
        );
        let q = after_segments(p, s);
        assert(Seq::<u8>::empty() + q.available =~= q.available);
        assert(q.available =~= p.available + carried(s));
    }
}

/// What one side writes the other can read: after the packets of a write have arrived, its data
/// is kept for readers, all of it, in order, and behind what was kept before.
pub proof fn writes_arrive(c: Conn, data: Seq<u8>, peer: Conn)
    requires
        peer.state == TcpState::Established,
        peer.pending.len() == 0,
    ensures
        after_segments(peer, segments(c, data)).available == peer.available + data,
        after_segments(peer, segments(c, data)).state == TcpState::Established,
{
    segments_carry_the_data(c, data);
    let s = segments(c, data);
    assert(0x10u16 | 0x08u16 == 0x18u16) by (bit_vector);
    lemma_segments_arrive(peer, s);
}

} // verus!

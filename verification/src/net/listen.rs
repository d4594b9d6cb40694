//! Sockets that listen.
use std::collections::{BTreeMap, VecDeque};

use vstd::prelude::*;

use crate::api::io::{IoError, IoResult};
use crate::net::address::{
    endpoint, endpoint_key, AsyncCallback, Completion, Ipv4Address, SocketId, SocketPort,
};
use crate::net::tcp::{
    later, taken, Conn, Delivery, PendingRead, Segment, SegmentModel, TcpConnection, TcpHeader,
    TcpState, FLAG_ACK, FLAG_SYN,
};
use crate::text::sub_bytes;

verus! {

/// A datagram to be sent, and whom to tell.
#[derive(Debug)]
pub struct Datagram {
    pub source_ip: Ipv4Address,
    pub source_port: SocketPort,
    pub dest_ip: Ipv4Address,
    pub dest_port: u16,
    pub payload: Vec<u8>,
    pub completion: Completion,
}

/// The same, over sequences.
pub struct DatagramModel {
    pub source_ip: Seq<u8>,
    pub source_port: SocketPort,
    pub dest_ip: Seq<u8>,
    pub dest_port: u16,
    pub payload: Seq<u8>,
    pub completion: Completion,
}

impl View for Datagram {
    type V = DatagramModel;

    open spec fn view(&self) -> DatagramModel {
        DatagramModel {
            source_ip: self.source_ip@,
            source_port: self.source_port,
            dest_ip: self.dest_ip@,
            dest_port: self.dest_port,
            payload: self.payload@,
            completion: self.completion,
        }
    }
}

/// A datagram that waits for an own address.
#[derive(Debug)]
pub struct PendingUdpWrite {
    pub source_port: SocketPort,
    pub dest_ip: Ipv4Address,
    pub dest_port: u16,
    pub payload: Vec<u8>,
    pub callback: AsyncCallback,
}

/// The same, over sequences.
pub struct PendingModel {
    pub source_port: SocketPort,
    pub dest_ip: Seq<u8>,
    pub dest_port: u16,
    pub payload: Seq<u8>,
    pub callback: AsyncCallback,
}

impl View for PendingUdpWrite {
    type V = PendingModel;

    open spec fn view(&self) -> PendingModel {
        PendingModel {
            source_port: self.source_port,
            dest_ip: self.dest_ip@,
            dest_port: self.dest_port,
            payload: self.payload@,
            callback: self.callback,
        }
    }
}

/// The datagram that a waiting write becomes.
pub open spec fn sent(p: PendingModel, source_ip: Seq<u8>) -> DatagramModel {
    DatagramModel {
        source_ip,
        source_port: p.source_port,
        dest_ip: p.dest_ip,
        dest_port: p.dest_port,
        payload: p.payload,
        completion: Completion { callback: p.callback, result: Ok(p.payload.len() as u32) },
    }
}

/// What a write to a socket asks to be sent: four bytes of address, two of port, the
/// high one first, and the data.
pub open spec fn parsed_write(port: SocketPort, buffer: Seq<u8>, callback: AsyncCallback)
    -> PendingModel {
    PendingModel {
        source_port: port,
        dest_ip: buffer.subrange(0, 4),
        dest_port: (buffer[4] * 256 + buffer[5]) as u16,
        payload: buffer.skip(6),
        callback,
    }
}

pub open spec fn pending_models(v: Seq<PendingUdpWrite>) -> Seq<PendingModel> {
    Seq::new(v.len(), |i: int| v[i]@)
}

pub open spec fn datagram_models(v: Seq<Datagram>) -> Seq<DatagramModel> {
    Seq::new(v.len(), |i: int| v[i]@)
}

/// The own address, once it is known, and the datagrams that wait for it.
pub struct UdpQueue {
    pub local_ip: Option<Ipv4Address>,
    pub pending: VecDeque<PendingUdpWrite>,
}

impl UdpQueue {
    pub open spec fn waiting(&self) -> Seq<PendingModel> {
        pending_models(self.pending@)
    }

    pub open spec fn ip(&self) -> Option<Seq<u8>> {
        match self.local_ip {
            Some(ip) => Some(ip@),
            None => None,
        }
    }

    pub fn new() -> (r: Self)
        ensures
            r.ip() is None,
            r.waiting() == Seq::<PendingModel>::empty(),
    {
        let r: UdpQueue = UdpQueue { local_ip: None, pending: VecDeque::new() };
        assert(r.waiting() =~= Seq::<PendingModel>::empty());
        r
    }

    /// The own address, where it is known.
    pub fn get_resolved_local_ip(&self) -> (r: Option<Ipv4Address>)
        ensures
            r == self.local_ip,
    {
        self.local_ip
    }

    /// The own address is known: send all that waits, in order.
    pub fn flush_pending_udp_writes(&mut self, local_ip: Ipv4Address) -> (r: Vec<Datagram>)
        ensures
            final(self).ip() == Some(local_ip@),
            final(self).waiting() == Seq::<PendingModel>::empty(),
            datagram_models(r@) == Seq::new(
                old(self).waiting().len(),
                |i: int| sent(old(self).waiting()[i], local_ip@),
            ),
    {
        self.local_ip = Some(local_ip);
        let mut out: Vec<Datagram> = Vec::new();
        let ghost all = self.waiting();
        assert(self.waiting() =~= all.skip(0));
        while self.pending.len() > 0
            invariant
                self.local_ip == Some(local_ip),
                all == old(self).waiting(),
                out@.len() <= all.len(),
                self.waiting() == all.skip(out@.len() as int),
                forall|i: int|
                    0 <= i < out@.len() ==> (#[trigger] out@[i])@ == sent(all[i], local_ip@),
            decreases self.pending@.len(),
        {
            let ghost before = self.waiting();
            let ghost k = out@.len() as int;
            let ghost queue = self.pending@;
            assert(before.len() == self.pending@.len());
            assert(before[0] == all[k]);
            match self.pending.pop_front() {
                Some(write) => {
                    assert(write@ == before[0]);
                    let result: IoResult = Ok(write.payload.len() as u32);
                    let datagram: Datagram = Datagram {
                        source_ip: local_ip,
                        source_port: write.source_port,
                        dest_ip: write.dest_ip,
                        dest_port: write.dest_port,
                        payload: write.payload,
                        completion: Completion { callback: write.callback, result },
                    };
                    assert(datagram@ == sent(all[k], local_ip@));
                    out.push(datagram);
                    assert forall|i: int| 0 <= i < self.pending@.len() implies (
                    #[trigger] self.waiting()[i]) == all.skip(k + 1)[i] by {
                        assert(self.pending@[i] == queue[i + 1]);
                        assert(before[i + 1] == queue[i + 1]@);
                    }
                    assert(self.waiting() =~= all.skip(k + 1));
                },
                None => {},
            }
        }
        assert(self.waiting() =~= Seq::<PendingModel>::empty());
        assert(datagram_models(out@) =~= Seq::new(all.len(), |i: int| sent(all[i], local_ip@)));
        out
    }
}

/// A socket for datagrams to a port: the datagrams that arrived and were not read, and
/// the reads that wait for one, the oldest first.
pub struct UdpListener {
    pub port: SocketPort,
    pub packets: VecDeque<Vec<u8>>,
    pub pending_reads: VecDeque<PendingRead>,
}

/// A socket for datagrams, over sequences.
#[verifier::ext_equal]
pub struct UdpSocket {
    pub port: SocketPort,
    pub packets: Seq<Seq<u8>>,
    pub pending: Seq<PendingRead>,
}

impl View for UdpListener {
    type V = UdpSocket;

    open spec fn view(&self) -> UdpSocket {
        UdpSocket {
            port: self.port,
            packets: Seq::new(self.packets@.len(), |i: int| self.packets@[i]@),
            pending: self.pending_reads@,
        }
    }
}

/// The socket after a datagram arrived: the oldest read that waits gets it, and else it
/// is kept.
pub open spec fn received(u: UdpSocket, data: Seq<u8>) -> UdpSocket {
    if u.pending.len() > 0 {
        UdpSocket { pending: u.pending.skip(1), ..u }
    } else {
        UdpSocket { packets: u.packets.push(data), ..u }
    }
}

/// What a read leaves of a socket, what it gives, and its result, if it does not wait.
pub open spec fn datagram_read(
    u: UdpSocket, len: nat, buffer_paddr: u32, callback: AsyncCallback,
) -> (UdpSocket, Seq<u8>, Option<IoResult>) {
    if u.packets.len() > 0 {
        let n = fits(u.packets[0], len as int);
        (
            UdpSocket { packets: u.packets.skip(1), ..u },
            u.packets[0].take(n),
            Some(IoResult::Ok(n as u32)),
        )
    } else {
        let read = PendingRead { buffer_paddr, buffer_len: len as usize, callback };
        (UdpSocket { pending: u.pending.push(read), ..u }, Seq::empty(), None)
    }
}

/// What a datagram that arrives gives to the oldest read that waits: where, what, and the
/// completion of the read.
pub open spec fn datagram_handed(u: UdpSocket, data: Seq<u8>) -> Option<(u32, Seq<u8>, Completion)> {
    if u.pending.len() > 0 {
        let read = u.pending[0];
        let n = taken(read, data);
        Some(
            (
                read.buffer_paddr,
                data.take(n),
                Completion { callback: read.callback, result: Ok(n as u32) },
            ),
        )
    } else {
        None
    }
}

/// How much of a datagram a buffer takes. The rest is dropped.
pub open spec fn fits(data: Seq<u8>, len: int) -> int {
    if data.len() < len { data.len() as int } else { len }
}

impl UdpListener {
    pub fn new(port: SocketPort) -> (r: Self)
        ensures
            r@ == (UdpSocket { port, packets: Seq::empty(), pending: Seq::empty() }),
    {
        let r: UdpListener = UdpListener {
            port,
            packets: VecDeque::new(),
            pending_reads: VecDeque::new(),
        };
        assert(r@.packets =~= Seq::empty());
        r
    }

    /// Take a datagram. Gives what the oldest read that waits gets of it, and its
    /// completion.
    pub fn handle_packet(&mut self, data: &[u8]) -> (r: Option<(Delivery, Completion)>)
        ensures
            final(self)@ == received(old(self)@, data@),
            match r {
                None => old(self)@.pending.len() == 0,
                Some((d, c)) => old(self)@.pending.len() > 0 && ({
                    let read = old(self)@.pending[0];
                    let n = taken(read, data@);
                    &&& d.buffer_paddr == read.buffer_paddr
                    &&& d.data@ == data@.subrange(0, n)
                    &&& c == (Completion { callback: read.callback, result: Ok(n as u32) })
                }),
            },
            match r {
                None => datagram_handed(old(self)@, data@) is None,
                Some((d, c)) => datagram_handed(old(self)@, data@) == Some(
                    (d.buffer_paddr, d.data@, c),
                ),
            },
    {
        let ghost before = self@;
        match self.pending_reads.pop_front() {
            None => {
                let packet: Vec<u8> = sub_bytes(data, 0, data.len());
                assert(packet@ =~= data@);
                self.packets.push_back(packet);
                assert(self@.packets =~= before.packets.push(data@));
                assert(self@ =~= received(before, data@));
                None
            },
            Some(read) => {
                let page: usize = 0x1000 - (read.buffer_paddr % 0x1000) as usize;
                let usable: usize = if read.buffer_len < page { read.buffer_len } else { page };
                let n: usize = if data.len() < usable { data.len() } else { usable };
                assert(n == taken(read, data@));
                assert(self@.pending =~= before.pending.skip(1));
                assert(self@ =~= received(before, data@));
                Some(
                    (
                        Delivery { buffer_paddr: read.buffer_paddr, data: sub_bytes(data, 0, n) },
                        Completion { callback: read.callback, result: Ok(n as u32) },
                    ),
                )
            },
        }
    }

    /// Read the next datagram. One that has arrived is read at once; else the read waits
    /// for the next.
    pub fn read(&mut self, buffer: &mut [u8], buffer_paddr: u32, callback: AsyncCallback) -> (r:
        Option<IoResult>)
        ensures
            ({
                let u = old(self)@;
                if u.packets.len() > 0 {
                    let n = fits(u.packets[0], old(buffer)@.len() as int);
                    &&& r == Some(IoResult::Ok(n as u32))
                    &&& final(self)@ == (UdpSocket { packets: u.packets.skip(1), ..u })
                    &&& final(buffer)@ == u.packets[0].subrange(0, n) + old(buffer)@.skip(n)
                } else {
                    &&& r is None
                    &&& final(buffer)@ == old(buffer)@
                    &&& final(self)@ == (UdpSocket {
                        pending: u.pending.push(
                            PendingRead {
                                buffer_paddr,
                                buffer_len: old(buffer)@.len() as usize,
                                callback,
                            },
                        ),
                        ..u
                    })
                }
            }),
            ({
                let (after, got, result) = datagram_read(
                    old(self)@, old(buffer)@.len(), buffer_paddr, callback,
                );
                &&& final(self)@ == after
                &&& final(buffer)@ == got + old(buffer)@.skip(got.len() as int)
                &&& r == result
            }),
    {
        let ghost u = self@;
        let ghost queue = self.packets@;
        let len: usize = buffer.len();
        match self.packets.pop_front() {
            None => {
                self.pending_reads.push_back(
                    PendingRead { buffer_paddr, buffer_len: len, callback },
                );
                assert(self@.packets =~= u.packets);
                None
            },
            Some(packet) => {
                assert(packet@ == u.packets[0]);
                proof {
                    assert forall|i: int| 0 <= i < self.packets@.len() implies (
                    #[trigger] self.packets@[i])@ == u.packets[i + 1] by {
                        assert(self.packets@[i] == queue[i + 1]);
                    }
                    assert(self@.packets =~= u.packets.skip(1));
                }
                let n: usize = if packet.len() < len { packet.len() } else { len };
                let mut i: usize = 0;
                while i < n
                    invariant
                        i <= n,
                        n <= packet@.len(),
                        n <= len,
                        len == old(buffer)@.len(),
                        buffer@.len() == len,
                        buffer@ =~= packet@.subrange(0, i as int) + old(buffer)@.skip(i as int),
                    decreases n - i,
                {
                    buffer[i] = packet[i];
                    i += 1;
                }
                Some(Ok(n as u32))
            },
        }
    }

    /// Send a datagram, or keep it until the own address is known.
    pub fn write(&self, buffer: &[u8], callback: AsyncCallback, queue: &mut UdpQueue) -> (r: (
        Option<IoResult>,
        Option<Datagram>,
    ))
        ensures
            final(queue).ip() == old(queue).ip(),
            ({
                let p = parsed_write(self@.port, buffer@, callback);
                if buffer@.len() < 6 {
                    &&& r.0 == Some(IoResult::Err(IoError::InvalidArgument))
                    &&& r.1 is None
                    &&& final(queue).waiting() == old(queue).waiting()
                } else {
                    match old(queue).ip() {
                        Some(ip) => {
                            &&& r.0 == Some(IoResult::Ok((buffer@.len() - 6) as u32))
                            &&& r.1 matches Some(d) && d@ == sent(p, ip)
                            &&& final(queue).waiting() == old(queue).waiting()
                        },
                        None => {
                            &&& r.0 is None
                            &&& r.1 is None
                            &&& final(queue).waiting() == old(queue).waiting().push(p)
                        },
                    }
                }
            }),
    {
        if buffer.len() < 6 {
            return (Some(Err(IoError::InvalidArgument)), None);
        }
        let dest_ip: Ipv4Address = Ipv4Address([buffer[0], buffer[1], buffer[2], buffer[3]]);
        assert(dest_ip@ =~= buffer@.subrange(0, 4));
        let dest_port: u16 = buffer[4] as u16 * 256 + buffer[5] as u16;
        let payload: Vec<u8> = sub_bytes(buffer, 6, buffer.len());
        assert(payload@ =~= buffer@.skip(6));
        let result: IoResult = Ok(payload.len() as u32);
        match queue.local_ip {
            Some(src_ip) => {
                let datagram: Datagram = Datagram {
                    source_ip: src_ip,
                    source_port: self.port,
                    dest_ip,
                    dest_port,
                    payload,
                    completion: Completion { callback, result },
                };
                (Some(result), Some(datagram))
            },
            None => {
                let write: PendingUdpWrite = PendingUdpWrite {
                    source_port: self.port,
                    dest_ip,
                    dest_port,
                    payload,
                    callback,
                };
                let ghost before = queue.waiting();
                queue.pending.push_back(write);
                assert(queue.waiting() =~= before.push(write@));
                (None, None)
            },
        }
    }
}

/// A datagram that had to wait is sent as it would have been at once.
pub proof fn waiting_changes_nothing(
    port: SocketPort, buffer: Seq<u8>, callback: AsyncCallback, ip: Seq<u8>, before: Seq<PendingModel>,
)
    requires
        buffer.len() >= 6,
    ensures
        ({
            let waiting = before.push(parsed_write(port, buffer, callback));
            let flushed = Seq::new(waiting.len(), |i: int| sent(waiting[i], ip));
            flushed.last() == sent(parsed_write(port, buffer, callback), ip)
        }),
{
}

/// The sockets of a listener, by the other side's address and port.
pub struct ListenerConnections {
    pub lookup: BTreeMap<u64, u32>,
}

impl ListenerConnections {
    pub open spec fn sockets(&self) -> Map<u64, u32> {
        self.lookup@
    }

    /// The socket of an address and port.
    pub open spec fn socket_of(&self, address: Seq<u8>, port: u16) -> Option<SocketId> {
        let key = endpoint(address, port);
        if self.sockets().dom().contains(key) { Some(SocketId(self.sockets()[key])) } else { None }
    }

    pub fn new() -> (r: Self)
        ensures
            r.sockets() == Map::<u64, u32>::empty(),
    {
        ListenerConnections { lookup: BTreeMap::new() }
    }

    pub fn add(&mut self, remote_address: Ipv4Address, remote_port: SocketPort, socket_id: SocketId)
        ensures
            final(self).sockets() == old(self).sockets().insert(
                endpoint(remote_address@, remote_port.0), socket_id.0,
            ),
    {
        self.lookup.insert(endpoint_key(remote_address, remote_port), socket_id.0);
    }

    pub fn remove(&mut self, remote_address: Ipv4Address, remote_port: SocketPort) -> (r: Option<
        SocketId,
    >)
        ensures
            final(self).sockets() == old(self).sockets().remove(
                endpoint(remote_address@, remote_port.0),
            ),
            r == old(self).socket_of(remote_address@, remote_port.0),
    {
        let key: u64 = endpoint_key(remote_address, remote_port);
        let ghost before = self.lookup@;
        let r: Option<u32> = self.lookup.remove(&key);
        match r {
            Some(id) => Some(SocketId(id)),
            None => {
                assert(before.remove(key) =~= before);
                None
            },
        }
    }

    pub fn find(&self, remote_address: Ipv4Address, remote_port: SocketPort) -> (r: Option<SocketId>)
        ensures
            r == self.socket_of(remote_address@, remote_port.0),
    {
        let key: u64 = endpoint_key(remote_address, remote_port);
        match self.lookup.get(&key) {
            Some(id) => Some(SocketId(*id)),
            None => None,
        }
    }
}

/// A caller that asked for a connection: the address it asked for, its own address and
/// port, and the number of its packet.
pub struct PendingSyn {
    pub local_address: Ipv4Address,
    pub address: Ipv4Address,
    pub port: SocketPort,
    pub sequence: u32,
}

/// A socket that accepts connections to a port.
pub struct TcpListener {
    pub local_port: SocketPort,
    pub connections: ListenerConnections,
    pub pending_syn: VecDeque<PendingSyn>,
    pub pending_accept: VecDeque<AsyncCallback>,
}

/// A new connection, and the packet that opens it.
pub struct NewConnection {
    pub socket_id: SocketId,
    pub connection: TcpConnection,
    pub response: Segment,
}

/// A connection that begins: from here where no number was received.
pub open spec fn new_conn(
    id: SocketId, local_port: SocketPort, remote: Seq<u8>, remote_port: SocketPort, last_seq: u32,
    callback: AsyncCallback,
) -> Conn {
    let outbound = last_seq == 0;
    Conn {
        own_id: id,
        local_address: seq![0u8, 0, 0, 0],
        local_port,
        remote_address: remote,
        remote_port,
        state: if outbound { TcpState::SynSent } else { TcpState::SynReceived },
        last_sequence_sent: 0,
        last_sequence_received: last_seq,
        on_connect: Some((callback, !outbound)),
        pending: Seq::empty(),
        available: Seq::empty(),
    }
}

/// The packet that opens a connection.
pub open spec fn opening(
    local: Seq<u8>, local_port: SocketPort, remote: Seq<u8>, remote_port: SocketPort, last_seq: u32,
) -> SegmentModel {
    SegmentModel {
        local_address: local,
        local_port,
        remote_address: remote,
        remote_port,
        sequence: 0,
        acknowledged: later(last_seq, 1),
        flags: if last_seq == 0 { FLAG_SYN } else { FLAG_SYN | FLAG_ACK },
        data: Seq::empty(),
    }
}

/// Who waits at a listener, and who is put through: a caller with the accept that gets it.
pub struct Waiting {
    pub callers: Seq<PendingSyn>,
    pub accepts: Seq<AsyncCallback>,
    pub through: Option<(PendingSyn, AsyncCallback)>,
}

/// Someone calls: the oldest accept gets the caller, and else the caller waits.
pub open spec fn called(callers: Seq<PendingSyn>, accepts: Seq<AsyncCallback>, call: PendingSyn) -> Waiting {
    if accepts.len() > 0 {
        Waiting { callers, accepts: accepts.skip(1), through: Some((call, accepts[0])) }
    } else {
        Waiting { callers: callers.push(call), accepts, through: None }
    }
}

/// A program accepts: it gets the oldest caller, and else waits.
pub open spec fn accepted(callers: Seq<PendingSyn>, accepts: Seq<AsyncCallback>, by: AsyncCallback) -> Waiting {
    if callers.len() > 0 {
        Waiting { callers: callers.skip(1), accepts, through: Some((callers[0], by)) }
    } else {
        Waiting { callers, accepts: accepts.push(by), through: None }
    }
}

/// A new connection is that of the caller who was put through.
pub open spec fn connects(
    n: Option<NewConnection>, w: Waiting, id: u32, local_port: SocketPort,
) -> bool {
    match (n, w.through) {
        (Some(n), Some((call, by))) => {
            &&& n.socket_id == SocketId(id)
            &&& n.connection@ == new_conn(
                SocketId(id), local_port, call.address@, call.port, call.sequence, by,
            )
            &&& n.response@ == opening(
                call.local_address@, local_port, call.address@, call.port, call.sequence,
            )
        },
        (None, None) => true,
        _ => false,
    }
}

/// Callers and accepts are matched in their order: whoever has waited longest is served first, no
/// caller and no accept is lost or served twice, and callers wait only where no accept does.
pub proof fn callers_are_accepted_in_order(
    callers: Seq<PendingSyn>, accepts: Seq<AsyncCallback>, first: PendingSyn, second: PendingSyn,
    a: AsyncCallback, b: AsyncCallback,
)
    requires
        callers.len() == 0 || accepts.len() == 0,
    ensures
        // Two calls, then two accepts.
        callers.len() == 0 && accepts.len() == 0 ==> {
            let one = called(callers, accepts, first);
            let two = called(one.callers, one.accepts, second);
            let x = accepted(two.callers, two.accepts, a);
            let y = accepted(x.callers, x.accepts, b);
            &&& one.through is None && two.through is None
            &&& x.through == Some((first, a)) && y.through == Some((second, b))
            &&& y.callers.len() == 0 && y.accepts.len() == 0
        },
        // Two accepts, then two calls.
        callers.len() == 0 && accepts.len() == 0 ==> {
            let one = accepted(callers, accepts, a);
            let two = accepted(one.callers, one.accepts, b);
            let x = called(two.callers, two.accepts, first);
            let y = called(x.callers, x.accepts, second);
            &&& one.through is None && two.through is None
            &&& x.through == Some((first, a)) && y.through == Some((second, b))
            &&& y.callers.len() == 0 && y.accepts.len() == 0
        },
        ({
            let w = called(callers, accepts, first);
            &&& w.callers.len() == 0 || w.accepts.len() == 0
            &&& w.through is Some == (accepts.len() > 0)
            &&& w.through matches Some((_, by)) ==> seq![by] + w.accepts == accepts && w.callers == callers
            &&& w.through is None ==> w.callers == callers.push(first) && w.accepts == accepts
        }),
        ({
            let w = accepted(callers, accepts, a);
            &&& w.callers.len() == 0 || w.accepts.len() == 0
            &&& w.through is Some == (callers.len() > 0)
            &&& w.through matches Some((call, by)) ==> seq![call] + w.callers == callers && by == a
                && w.accepts == accepts
            &&& w.through is None ==> w.accepts == accepts.push(a) && w.callers == callers
        }),
{
    if accepts.len() > 0 {
        assert(seq![accepts[0]] + accepts.skip(1) =~= accepts);
    }
    if callers.len() > 0 {
        assert(seq![callers[0]] + callers.skip(1) =~= callers);
    }
}

impl TcpListener {
    pub fn new(port: SocketPort) -> (r: Self)
        ensures
            r.local_port == port,
            r.connections.sockets() == Map::<u64, u32>::empty(),
            r.pending_syn@.len() == 0,
            r.pending_accept@.len() == 0,
    {
        TcpListener {
            local_port: port,
            connections: ListenerConnections::new(),
            pending_syn: VecDeque::new(),
            pending_accept: VecDeque::new(),
        }
    }

    /// Take a packet from someone without a connection here. One that asks for a
    /// connection gets it if an accept waits, and else waits itself. `next_id` numbers
    /// the new socket.
    pub fn handle_packet(
        &mut self,
        local_addr: Ipv4Address,
        remote_addr: Ipv4Address,
        header: &TcpHeader,
        next_id: &mut u32,
    ) -> (r: Option<NewConnection>)
        requires
            old(self).connections.socket_of(remote_addr@, header.source_port) is None,
        ensures
            final(self).local_port == old(self).local_port,
            header.syn ==> {
                let w = called(
                    old(self).pending_syn@, old(self).pending_accept@,
                    PendingSyn {
                        local_address: local_addr,
                        address: remote_addr,
                        port: SocketPort(header.source_port),
                        sequence: header.sequence_number,
                    },
                );
                &&& final(self).pending_syn@ == w.callers
                &&& final(self).pending_accept@ == w.accepts
                &&& connects(r, w, *old(next_id), old(self).local_port)
            },
            ({
                let port = SocketPort(header.source_port);
                if header.syn && old(self).pending_accept@.len() > 0 {
                    &&& r matches Some(n) && n.socket_id == SocketId(*old(next_id)) && n.connection@
                        == new_conn(
                        SocketId(*old(next_id)), old(self).local_port, remote_addr@, port,
                        header.sequence_number, old(self).pending_accept@[0],
                    ) && n.response@ == opening(
                        local_addr@, old(self).local_port, remote_addr@, port,
                        header.sequence_number,
                    )
                    &&& *final(next_id) == later(*old(next_id), 1)
                    &&& final(self).connections.sockets() == old(
                        self,
                    ).connections.sockets().insert(
                        endpoint(remote_addr@, port.0), *old(next_id),
                    )
                    &&& final(self).pending_accept@ == old(self).pending_accept@.skip(1)
                    &&& final(self).pending_syn@ == old(self).pending_syn@
                } else {
                    &&& r is None
                    &&& *final(next_id) == *old(next_id)
                    &&& final(self).connections == old(self).connections
                    &&& final(self).pending_accept@ == old(self).pending_accept@
                    &&& final(self).pending_syn@ == (if header.syn {
                        old(self).pending_syn@.push(
                            PendingSyn {
                                local_address: local_addr,
                                address: remote_addr,
                                port,
                                sequence: header.sequence_number,
                            },
                        )
                    } else {
                        old(self).pending_syn@
                    })
                }
            }),
    {
        let port: SocketPort = SocketPort(header.source_port);
        if !header.syn {
            return None;
        }
        match self.pending_accept.pop_front() {
            None => {
                self.pending_syn.push_back(
                    PendingSyn {
                        local_address: local_addr,
                        address: remote_addr,
                        port,
                        sequence: header.sequence_number,
                    },
                );
                None
            },
            Some(callback) => {
                assert(self.pending_accept@ =~= old(self).pending_accept@.skip(1));
                Some(
                    self.init_connection(
                        local_addr, remote_addr, port, header.sequence_number, callback, next_id,
                    ),
                )
            },
        }
    }

    /// Begin a connection: from here where `last_seq` is 0, else to answer a packet
    /// with that number.
    pub fn init_connection(
        &mut self,
        local_addr: Ipv4Address,
        remote_addr: Ipv4Address,
        remote_port: SocketPort,
        last_seq: u32,
        callback: AsyncCallback,
        next_id: &mut u32,
    ) -> (r: NewConnection)
        ensures
            r.socket_id == SocketId(*old(next_id)),
            *final(next_id) == later(*old(next_id), 1),
            r.connection@ == new_conn(
                r.socket_id, old(self).local_port, remote_addr@, remote_port, last_seq, callback,
            ),
            r.response@ == opening(
                local_addr@, old(self).local_port, remote_addr@, remote_port, last_seq,
            ),
            final(self).connections.sockets() == old(self).connections.sockets().insert(
                endpoint(remote_addr@, remote_port.0), *old(next_id),
            ),
            final(self).local_port == old(self).local_port,
            final(self).pending_syn == old(self).pending_syn,
            final(self).pending_accept == old(self).pending_accept,
    {
        let is_outbound: bool = last_seq == 0;
        let socket_id: SocketId = SocketId(*next_id);
        *next_id = next_id.wrapping_add(1);
        let mut connection: TcpConnection = TcpConnection::new(
            socket_id,
            self.local_port,
            remote_addr,
            remote_port,
            is_outbound,
            Some((callback, !is_outbound)),
        );
        connection.last_sequence_received = last_seq;
        self.connections.add(remote_addr, remote_port, socket_id);
        let flags: u16 = if is_outbound { FLAG_SYN } else { FLAG_SYN | FLAG_ACK };
        let data: Vec<u8> = Vec::new();
        assert(data@ =~= Seq::empty());
        let response: Segment = Segment {
            local_address: local_addr,
            local_port: self.local_port,
            remote_address: remote_addr,
            remote_port,
            sequence: connection.last_sequence_sent,
            acknowledged: connection.last_sequence_received.wrapping_add(1),
            flags,
            data,
        };
        NewConnection { socket_id, connection, response }
    }

    /// Accept a connection: that of the oldest caller that waits, and else that of the
    /// next caller. Either way the result comes later, with the connection.
    pub fn accept(&mut self, callback: AsyncCallback, next_id: &mut u32) -> (r: (
        Option<IoResult>,
        Option<NewConnection>,
    ))
        ensures
            r.0 is None,
            final(self).local_port == old(self).local_port,
            ({
                let w = accepted(old(self).pending_syn@, old(self).pending_accept@, callback);
                &&& final(self).pending_syn@ == w.callers
                &&& final(self).pending_accept@ == w.accepts
                &&& connects(r.1, w, *old(next_id), old(self).local_port)
            }),
            if old(self).pending_syn@.len() == 0 {
                &&& r.1 is None
                &&& *final(next_id) == *old(next_id)
                &&& final(self).pending_accept@ == old(self).pending_accept@.push(callback)
                &&& final(self).pending_syn@ == old(self).pending_syn@
                &&& final(self).connections == old(self).connections
            } else {
                let syn = old(self).pending_syn@[0];
                &&& r.1 matches Some(n) && n.socket_id == SocketId(*old(next_id)) && n.connection@
                    == new_conn(
                    SocketId(*old(next_id)), old(self).local_port, syn.address@, syn.port,
                    syn.sequence, callback,
                ) && n.response@ == opening(
                    syn.local_address@, old(self).local_port, syn.address@, syn.port, syn.sequence,
                )
                &&& *final(next_id) == later(*old(next_id), 1)
                &&& final(self).connections.sockets() == old(self).connections.sockets().insert(
                    endpoint(syn.address@, syn.port.0), *old(next_id),
                )
                &&& final(self).pending_accept@ == old(self).pending_accept@
                &&& final(self).pending_syn@ == old(self).pending_syn@.skip(1)
            },
    {
        match self.pending_syn.pop_front() {
            None => {
                self.pending_accept.push_back(callback);
                (None, None)
            },
            Some(syn) => {
                assert(self.pending_syn@ =~= old(self).pending_syn@.skip(1));
                let connection: NewConnection = self.init_connection(
                    syn.local_address, syn.address, syn.port, syn.sequence, callback, next_id,
                );
                (None, Some(connection))
            },
        }
    }
}

/// Datagrams are read in the order in which they arrive, whether the read or the
/// datagram comes first: as long as one side waits the other does not.
pub proof fn datagrams_keep_their_order(u: UdpSocket, a: Seq<u8>, b: Seq<u8>)
    requires
        u.pending.len() == 0 || u.packets.len() == 0,
    ensures
        received(u, a).pending.len() == 0 || received(u, a).packets.len() == 0,
        u.pending.len() == 0 ==> received(received(u, a), b).packets == u.packets.push(a).push(b),
        u.pending.len() >= 2 ==> received(received(u, a), b).pending == u.pending.skip(2),
{
    if u.pending.len() >= 2 {
        assert(u.pending.skip(1).skip(1) =~= u.pending.skip(2));
    }
}

/// Opening a connection takes three packets: the answer to the first acknowledges it,
/// and a third that acknowledges the answer opens the connection.
pub proof fn handshake_opens_the_connection(
    id: SocketId, local: Seq<u8>, local_port: SocketPort, remote: Seq<u8>, remote_port: SocketPort,
    number: u32, callback: AsyncCallback, third: TcpHeader,
)
    requires
        number != 0,
        third.ack,
        !third.rst,
        third.ack_number == 1,
    ensures
        ({
            let c = new_conn(id, local_port, remote, remote_port, number, callback);
            let answer = opening(local, local_port, remote, remote_port, number);
            let after = crate::net::tcp::after_packet(c, local, remote, third, Seq::empty());
            &&& answer.acknowledged == later(number, 1)
            &&& third.ack_number == later(answer.sequence, 1)
            &&& after.state == TcpState::Established
            &&& crate::net::tcp::packet_outcome(
                c, local, remote, third, Seq::empty(), true,
            ).connected == Some((callback, true))
        }),
{
}

/// A socket that was added is found, and one that was removed is not; others stay.
pub proof fn lookup_follows_changes(
    sockets: Map<u64, u32>, a: Ipv4Address, p: u16, b: Ipv4Address, q: u16, id: u32,
)
    requires
        a@ != b@ || p != q,
    ensures
        sockets.insert(endpoint(a@, p), id)[endpoint(a@, p)] == id,
        !sockets.remove(endpoint(a@, p)).dom().contains(endpoint(a@, p)),
        sockets.insert(endpoint(a@, p), id).dom().contains(endpoint(b@, q))
            == sockets.dom().contains(endpoint(b@, q)),
        sockets.remove(endpoint(a@, p)).dom().contains(endpoint(b@, q)) == sockets.dom().contains(
            endpoint(b@, q),
        ),
{
    if endpoint(a@, p) == endpoint(b@, q) {
        crate::net::address::endpoints_are_distinct(a, p, b, q);
    }
}

/// A read gets one datagram, the oldest, from its first byte on and as much as fits; the next read
/// gets the next. It does not matter which comes first, the read or the datagram: the reader
/// gets the same bytes and the same result, and the socket is left the same.
pub proof fn each_read_gets_one_datagram(
    u: UdpSocket, data: Seq<u8>, len: nat, buffer_paddr: u32, callback: AsyncCallback,
)
    requires
        len <= usize::MAX,
        buffer_paddr as int % 0x1000 + len <= 0x1000,
        data.len() <= u32::MAX,
    ensures
        u.packets.len() > 0 ==> {
            let (after, got, result) = datagram_read(u, len, buffer_paddr, callback);
            &&& after.packets == u.packets.skip(1) && after.pending == u.pending
            &&& got == u.packets[0].take(got.len() as int)
            &&& got.len() == len || got.len() == u.packets[0].len()
            &&& got.len() <= len && got.len() <= u.packets[0].len()
            &&& result == Some(IoResult::Ok(got.len() as u32))
        },
        u.packets.len() == 0 && u.pending.len() == 0 ==> {
            let (first, got, result) = datagram_read(received(u, data), len, buffer_paddr, callback);
            let (waits, nothing, none) = datagram_read(u, len, buffer_paddr, callback);
            &&& none is None && nothing.len() == 0
            &&& datagram_handed(waits, data) matches Some((paddr, bytes, done)) && {
                &&& paddr == buffer_paddr
                &&& bytes == got
                &&& done.callback == callback
                &&& Some(done.result) == result
            }
            &&& first == u && received(waits, data) == u
            &&& got == data.take(got.len() as int)
            &&& got.len() == len || got.len() == data.len()
            &&& got.len() <= len && got.len() <= data.len()
        },
{
    if u.packets.len() == 0 && u.pending.len() == 0 {
        let (first, got, result) = datagram_read(received(u, data), len, buffer_paddr, callback);
        let (waits, nothing, none) = datagram_read(u, len, buffer_paddr, callback);
        assert(received(u, data).packets[0] == data);
        assert(waits.pending[0] == (PendingRead { buffer_paddr, buffer_len: len as usize, callback }));
        assert(first.packets =~= u.packets);
        assert(received(waits, data).pending =~= u.pending);
        assert(first =~= u);
        assert(received(waits, data) =~= u);
    }
}

/// A write begins with the address and the port that it goes to, the high byte of the port first;
/// the data that follows is sent as it is, from the port of the socket.
pub proof fn writes_say_where_they_go(
    port: SocketPort, address: Seq<u8>, hi: u8, lo: u8, data: Seq<u8>, callback: AsyncCallback,
    ip: Seq<u8>,
)
    requires
        address.len() == 4,
        data.len() <= u32::MAX,
    ensures
        ({
            let d = sent(parsed_write(port, address + seq![hi, lo] + data, callback), ip);
            &&& d.source_ip == ip && d.source_port == port
            &&& d.dest_ip == address && d.dest_port == hi * 256 + lo
            &&& d.payload == data
            &&& d.completion.callback == callback
            &&& d.completion.result == IoResult::Ok(data.len() as u32)
        }),
{
    let buffer = address + seq![hi, lo] + data;
    assert(buffer.subrange(0, 4) =~= address);
    assert(buffer.skip(6) =~= data);
    assert(buffer[4] == hi && buffer[5] == lo);
}

/// The first packet of a connection that is opened from here asks for it with the number 0, and
/// is confirmed by nobody. The first packet to a caller confirms the caller's number.
pub proof fn first_packets_ask_or_confirm(
    id: SocketId, local: Seq<u8>, local_port: SocketPort, remote: Seq<u8>, remote_port: SocketPort,
    number: u32, callback: AsyncCallback,
)
    ensures
        ({
            let c = new_conn(id, local_port, remote, remote_port, number, callback);
            let s = opening(local, local_port, remote, remote_port, number);
            &&& s.flags == (if number == 0 { 0x02u16 } else { 0x12u16 })
            &&& s.sequence == 0 && c.last_sequence_sent == 0
            &&& s.acknowledged as int == (number + 1) % 0x1_0000_0000
            &&& s.data.len() == 0
            &&& s.local_address == local && s.local_port == local_port
            &&& s.remote_address == remote && s.remote_port == remote_port
            &&& c.local_port == local_port && c.remote_address == remote
            &&& c.remote_port == remote_port && c.own_id == id
            &&& c.state == (if number == 0 { TcpState::SynSent } else { TcpState::SynReceived })
            &&& c.pending.len() == 0 && c.available.len() == 0
            &&& c.on_connect == Some((callback, number != 0))
            &&& c.last_sequence_received == number
            &&& c.local_address == Seq::new(4, |i: int| 0u8)
        }),
{
    assert(
        new_conn(id, local_port, remote, remote_port, number, callback).local_address =~= Seq::new(
            4, |i: int| 0u8,
        )
    );
    assert(0x02u16 | 0x10u16 == 0x12u16) by (bit_vector);
}

} // verus!

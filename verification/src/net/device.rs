//! A network device: what arrives, and what is being sent.
use std::collections::{BTreeMap, VecDeque};

use vstd::prelude::*;

use crate::net::address::Ipv4Address;
use crate::net::dns::{be16, be32, is_answer, learned, DnsCache};
use crate::net::tcp::TcpHeader;
use crate::text::{push_bytes, sub_bytes};

verus! {

/// What happened on the network.
#[derive(Clone, Copy, Debug)]
pub enum NetEvent {
    LinkEstablished,
    ArpResponse(Ipv4Address),
    DhcpOffer(u32),
    DhcpAck(u32),
    DnsResponse,
}

/// What may be asked of the network.
#[derive(Clone, Copy, PartialEq, Eq, Structural, Debug)]
pub enum NetRequest {
    GetLocalIp,
}

/// The size of the buffer that packets are read into.
pub const READ_BUFFER_SIZE: usize = 1536;

pub const ETHERNET_HEADER: usize = 14;
pub const IPV4_HEADER: usize = 20;
pub const UDP_HEADER: usize = 8;
pub const TCP_HEADER: usize = 20;

pub const ETHERTYPE_IP: u16 = 0x0800;
pub const ETHERTYPE_ARP: u16 = 0x0806;

pub const PROTOCOL_ICMP: u8 = 1;
pub const PROTOCOL_TCP: u8 = 6;
pub const PROTOCOL_UDP: u8 = 17;

pub const DHCP_PORT: u16 = 68;

/// The mark of a failed operation in its result.
pub const FAILED: u32 = 0x8000_0000;

/// What a packet is for.
pub enum Packet {
    /// Nothing to act upon.
    Ignored,
    /// An answer: the address of the hardware with an internet address.
    Arp { ip: Ipv4Address, mac: u64 },
    /// Settings for this device.
    Dhcp { payload: Vec<u8> },
    /// The answer to a question for a name.
    Dns { payload: Vec<u8> },
    /// A datagram for a socket. The port that it comes from is as it was sent, the
    /// first byte in the low half.
    Udp { dest_port: u16, source: Ipv4Address, source_port: u16, payload: Vec<u8> },
    /// A packet for a connection.
    Tcp { dest: Ipv4Address, source: Ipv4Address, header: TcpHeader, payload: Vec<u8> },
}

/// The same, over sequences.
pub enum PacketModel {
    Ignored,
    Arp(Seq<u8>, u64),
    Dhcp(Seq<u8>),
    Dns(Seq<u8>),
    Udp(u16, Seq<u8>, u16, Seq<u8>),
    Tcp(Seq<u8>, Seq<u8>, TcpHeader, Seq<u8>),
}

impl View for Packet {
    type V = PacketModel;

    open spec fn view(&self) -> PacketModel {
        match self {
            Packet::Ignored => PacketModel::Ignored,
            Packet::Arp { ip, mac } => PacketModel::Arp(ip@, *mac),
            Packet::Dhcp { payload } => PacketModel::Dhcp(payload@),
            Packet::Dns { payload } => PacketModel::Dns(payload@),
            Packet::Udp { dest_port, source, source_port, payload } => PacketModel::Udp(
                *dest_port, source@, *source_port, payload@,
            ),
            Packet::Tcp { dest, source, header, payload } => PacketModel::Tcp(
                dest@, source@, *header, payload@,
            ),
        }
    }
}

/// Six bytes as one number, the first in the highest place.
pub open spec fn mac_at(s: Seq<u8>, at: int) -> u64 {
    (be16(s, at) * 0x1_0000_0000 + be32(s, at + 2)) as u64
}

/// The header of a packet for a connection.
pub open spec fn tcp_header_at(s: Seq<u8>, at: int) -> TcpHeader {
    TcpHeader {
        source_port: be16(s, at),
        dest_port: be16(s, at + 2),
        sequence_number: be32(s, at + 4),
        ack_number: be32(s, at + 8),
        fin: s[at + 13] % 2 == 1,
        syn: s[at + 13] / 2 % 2 == 1,
        rst: s[at + 13] / 4 % 2 == 1,
        ack: s[at + 13] / 16 % 2 == 1,
    }
}

/// The end of an internet packet in the buffer.
pub open spec fn ip_end(s: Seq<u8>) -> int {
    ETHERNET_HEADER + be16(s, ETHERNET_HEADER + 2)
}

/// An internet packet that is not shorter than its header nor longer than the buffer.
pub open spec fn ip_fits(s: Seq<u8>) -> bool {
    be16(s, 12) == ETHERTYPE_IP ==> ETHERNET_HEADER + IPV4_HEADER <= ip_end(s) <= s.len()
}

/// What the packet in the buffer is for.
pub open spec fn packet_in(s: Seq<u8>, dns_port: u16) -> PacketModel {
    let ip = ETHERNET_HEADER as int;
    let at = ip + IPV4_HEADER;
    let end = ip_end(s);
    let source = s.subrange(ip + 12, ip + 16);
    let dest = s.subrange(ip + 16, ip + 20);
    if be16(s, 12) == ETHERTYPE_ARP {
        if be16(s, ip + 6) == 1 {
            PacketModel::Ignored
        } else {
            PacketModel::Arp(s.subrange(ip + 14, ip + 18), mac_at(s, ip + 8))
        }
    } else if be16(s, 12) == ETHERTYPE_IP {
        if s[ip + 9] == PROTOCOL_UDP {
            if end - at < UDP_HEADER {
                PacketModel::Ignored
            } else {
                let port = be16(s, at + 2);
                let payload = s.subrange(at + UDP_HEADER, end);
                if port == DHCP_PORT {
                    PacketModel::Dhcp(payload)
                } else if port == dns_port {
                    PacketModel::Dns(payload)
                } else {
                    PacketModel::Udp(port, source, (s[at] + s[at + 1] * 256) as u16, payload)
                }
            }
        } else if s[ip + 9] == PROTOCOL_TCP {
            if end - at < TCP_HEADER {
                PacketModel::Ignored
            } else {
                PacketModel::Tcp(dest, source, tcp_header_at(s, at), s.subrange(at + TCP_HEADER, end))
            }
        } else {
            PacketModel::Ignored
        }
    } else {
        PacketModel::Ignored
    }
}

fn read16(s: &[u8], at: usize) -> (r: u16)
    requires
        at + 1 < s@.len(),
    ensures
        r == be16(s@, at as int),
{
    s[at] as u16 * 256 + s[at + 1] as u16
}

fn read32(s: &[u8], at: usize) -> (r: u32)
    requires
        at + 3 < s@.len(),
    ensures
        r == be32(s@, at as int),
{
    s[at] as u32 * 0x100_0000 + s[at + 1] as u32 * 0x1_0000 + s[at + 2] as u32 * 256
        + s[at + 3] as u32
}

fn read_ip(s: &[u8], at: usize) -> (r: Ipv4Address)
    requires
        at + 3 < s@.len(),
    ensures
        r@ == s@.subrange(at as int, at + 4),
{
    let ip: Ipv4Address = Ipv4Address([s[at], s[at + 1], s[at + 2], s[at + 3]]);
    assert(ip@ =~= s@.subrange(at as int, at + 4));
    ip
}

/// The answer that an address packet holds. Requests are ignored.
pub fn handle_arp_packet(s: &[u8]) -> (r: Packet)
    requires
        s@.len() == READ_BUFFER_SIZE,
    ensures
        r@ == (if be16(s@, 20) == 1 {
            PacketModel::Ignored
        } else {
            PacketModel::Arp(s@.subrange(28, 32), mac_at(s@, 22))
        }),
{
    if read16(s, 20) == 1 {
        return Packet::Ignored;
    }
    let mac: u64 = read16(s, 22) as u64 * 0x1_0000_0000 + read32(s, 24) as u64;
    Packet::Arp { ip: read_ip(s, 28), mac }
}

/// What an internet packet is for.
pub fn handle_ip_packet(s: &[u8], dns_port: u16) -> (r: Packet)
    requires
        s@.len() == READ_BUFFER_SIZE,
        be16(s@, 12) == ETHERTYPE_IP,
        ip_fits(s@),
    ensures
        r@ == packet_in(s@, dns_port),
{
    let ip: usize = ETHERNET_HEADER;
    let at: usize = ip + IPV4_HEADER;
    let end: usize = ip + read16(s, ip + 2) as usize;
    let source: Ipv4Address = read_ip(s, ip + 12);
    let protocol: u8 = s[ip + 9];
    if protocol == PROTOCOL_UDP {
        if end - at < UDP_HEADER {
            return Packet::Ignored;
        }
        let dest_port: u16 = read16(s, at + 2);
        let payload: Vec<u8> = sub_bytes(s, at + UDP_HEADER, end);
        if dest_port == DHCP_PORT {
            Packet::Dhcp { payload }
        } else if dest_port == dns_port {
            Packet::Dns { payload }
        } else {
            let source_port: u16 = s[at] as u16 + s[at + 1] as u16 * 256;
            Packet::Udp { dest_port, source, source_port, payload }
        }
    } else if protocol == PROTOCOL_TCP {
        if end - at < TCP_HEADER {
            return Packet::Ignored;
        }
        let flags: u8 = s[at + 13];
        let header: TcpHeader = TcpHeader {
            source_port: read16(s, at),
            dest_port: read16(s, at + 2),
            sequence_number: read32(s, at + 4),
            ack_number: read32(s, at + 8),
            fin: flags % 2 == 1,
            syn: flags / 2 % 2 == 1,
            rst: flags / 4 % 2 == 1,
            ack: flags / 16 % 2 == 1,
        };
        let payload: Vec<u8> = sub_bytes(s, at + TCP_HEADER, end);
        Packet::Tcp { dest: read_ip(s, ip + 16), source, header, payload }
    } else {
        Packet::Ignored
    }
}

/// A frame that is being sent, and whether that is over.
pub struct ActiveWrite {
    pub frame: Vec<u8>,
    pub complete: bool,
}

/// What follows a read.
pub enum ReadOutcome {
    /// The read is not over, or the device could not be opened.
    Nothing,
    /// The device is open: read.
    Opened,
    /// The read failed or gave nothing: read again.
    Again,
    /// A packet arrived: act upon it and read again.
    Received(Packet),
}

/// The same, over sequences.
pub enum ReadModel {
    Nothing,
    Opened,
    Again,
    Received(PacketModel),
}

impl View for ReadOutcome {
    type V = ReadModel;

    open spec fn view(&self) -> ReadModel {
        match self {
            ReadOutcome::Nothing => ReadModel::Nothing,
            ReadOutcome::Opened => ReadModel::Opened,
            ReadOutcome::Again => ReadModel::Again,
            ReadOutcome::Received(p) => ReadModel::Received(p@),
        }
    }
}

/// What follows a read with a result. The first result is that of opening.
pub open spec fn read_outcome(
    is_open: bool, complete: bool, result: u32, buffer: Seq<u8>, dns_port: u16,
) -> ReadModel {
    if !complete {
        ReadModel::Nothing
    } else if !is_open {
        if result >= FAILED { ReadModel::Nothing } else { ReadModel::Opened }
    } else if result >= FAILED || result == 0 {
        ReadModel::Again
    } else {
        ReadModel::Received(packet_in(buffer, dns_port))
    }
}

pub struct NetDevice {
    pub mac: u64,
    pub is_open: bool,
    pub read_buffer: Vec<u8>,
    pub active_writes: VecDeque<ActiveWrite>,
    /// The hardware addresses of internet addresses.
    pub known_arp: BTreeMap<u32, u64>,
}

/// The frames that are still being sent.
pub open spec fn unfinished(writes: Seq<ActiveWrite>) -> Seq<ActiveWrite> {
    writes.filter(|w: ActiveWrite| !w.complete)
}

/// The hardware addresses that are known after a read.
pub open spec fn known_after(known: Map<u32, u64>, read: ReadModel) -> Map<u32, u64> {
    match read {
        ReadModel::Received(PacketModel::Arp(ip, mac)) => known.insert(ip_key(ip), mac),
        _ => known,
    }
}

/// An internet address as one number.
pub open spec fn ip_key(ip: Seq<u8>) -> u32 {
    be32(ip, 0)
}

impl NetDevice {
    pub open spec fn wf(&self) -> bool {
        self.read_buffer@.len() == READ_BUFFER_SIZE
    }

    /// A device that is being opened.
    pub fn new(mac: u64) -> (r: Self)
        ensures
            r.wf(),
            r.mac == mac,
            !r.is_open,
            r.read_buffer@ == Seq::new(READ_BUFFER_SIZE as nat, |i: int| 0u8),
            r.active_writes@.len() == 0,
            r.known_arp@ == Map::<u32, u64>::empty(),
    {
        let r: NetDevice = NetDevice {
            mac,
            is_open: false,
            read_buffer: vec![0u8; READ_BUFFER_SIZE],
            active_writes: VecDeque::new(),
            known_arp: BTreeMap::new(),
        };
        assert(r.read_buffer@ =~= Seq::new(READ_BUFFER_SIZE as nat, |i: int| 0u8));
        r
    }

    /// The frame that carries a payload behind a header.
    pub fn send_raw(header: &[u8], payload: &[u8]) -> (r: Vec<u8>)
        ensures
            r@ == header@ + payload@,
    {
        let mut frame: Vec<u8> = sub_bytes(header, 0, header.len());
        assert(frame@ =~= header@);
        push_bytes(&mut frame, payload);
        frame
    }

    /// Keep a frame that is being sent.
    pub fn add_write(&mut self, write: ActiveWrite)
        ensures
            final(self).active_writes@ == old(self).active_writes@.push(write),
            final(self).mac == old(self).mac,
            final(self).is_open == old(self).is_open,
            final(self).read_buffer == old(self).read_buffer,
            final(self).known_arp == old(self).known_arp,
    {
        self.active_writes.push_back(write);
    }

    /// Forget the frames that were sent. The others stay, in their order.
    pub fn clear_completed_writes(&mut self)
        ensures
            final(self).active_writes@ == unfinished(old(self).active_writes@),
            final(self).mac == old(self).mac,
            final(self).is_open == old(self).is_open,
            final(self).read_buffer == old(self).read_buffer,
            final(self).known_arp == old(self).known_arp,
    {
        let ghost all = self.active_writes@;
        let mut n: Ghost<int> = Ghost(0);
        let mut kept: VecDeque<ActiveWrite> = VecDeque::new();
        assert(all.skip(0) =~= all);
        proof {
            reveal(Seq::filter);
            assert(unfinished(all.take(0)) =~= Seq::empty());
        }
        while self.active_writes.len() > 0
            invariant
                0 <= n@ <= all.len(),
                self.active_writes@ == all.skip(n@),
                kept@ == unfinished(all.take(n@)),
                self.mac == old(self).mac,
                self.is_open == old(self).is_open,
                self.read_buffer == old(self).read_buffer,
                self.known_arp == old(self).known_arp,
            decreases self.active_writes@.len(),
        {
            if let Some(write) = self.active_writes.pop_front() {
                proof {
                    reveal(Seq::filter);
                    assert(write == all[n@]);
                    assert(all.take(n@ + 1).drop_last() =~= all.take(n@));
                    assert(self.active_writes@ =~= all.skip(n@ + 1));
                    n@ = n@ + 1;
                }
                if !write.complete {
                    kept.push_back(write);
                }
            }
        }
        assert(all.take(n@) =~= all);
        self.active_writes = kept;
    }

    /// Take the result of the read, or of the opening before the first. A packet is
    /// read from the buffer, which is then cleared; what it says of hardware addresses
    /// is kept.
    pub fn process_read_result(&mut self, complete: bool, result: u32, dns_port: u16) -> (r:
        ReadOutcome)
        requires
            old(self).wf(),
            complete && old(self).is_open && 0 < result < FAILED ==> ip_fits(
                old(self).read_buffer@,
            ),
        ensures
            final(self).wf(),
            r@ == read_outcome(
                old(self).is_open, complete, result, old(self).read_buffer@, dns_port,
            ),
            final(self).is_open == (old(self).is_open || r@ is Opened),
            final(self).read_buffer@ == (if r@ is Received {
                Seq::new(READ_BUFFER_SIZE as nat, |i: int| 0u8)
            } else {
                old(self).read_buffer@
            }),
            final(self).known_arp@ == (match r@ {
                ReadModel::Received(PacketModel::Arp(ip, mac)) => old(self).known_arp@.insert(
                    ip_key(ip), mac,
                ),
                _ => old(self).known_arp@,
            }),
            final(self).known_arp@ == known_after(old(self).known_arp@, r@),
            final(self).active_writes == old(self).active_writes,
            final(self).mac == old(self).mac,
    {
        if !complete {
            return ReadOutcome::Nothing;
        }
        if !self.is_open {
            if result >= FAILED {
                return ReadOutcome::Nothing;
            }
            self.is_open = true;
            return ReadOutcome::Opened;
        }
        if result >= FAILED || result == 0 {
            return ReadOutcome::Again;
        }
        let ethertype: u16 = read16(self.read_buffer.as_slice(), 12);
        let packet: Packet = if ethertype == ETHERTYPE_ARP {
            handle_arp_packet(self.read_buffer.as_slice())
        } else if ethertype == ETHERTYPE_IP {
            handle_ip_packet(self.read_buffer.as_slice(), dns_port)
        } else {
            Packet::Ignored
        };
        assert(packet@ == packet_in(self.read_buffer@, dns_port));
        match &packet {
            Packet::Arp { ip, mac } => {
                let key: u32 = read32(ip.0.as_slice(), 0);
                self.known_arp.insert(key, *mac);
            },
            _ => {},
        }
        self.read_buffer = vec![0u8; READ_BUFFER_SIZE];
        assert(self.read_buffer@ =~= Seq::new(READ_BUFFER_SIZE as nat, |i: int| 0u8));
        ReadOutcome::Received(packet)
    }
}

/// The event of an answer to a question for a name, whose addresses are kept.
pub fn dns_event(cache: &mut DnsCache, payload: &[u8]) -> (r: Option<NetEvent>)
    requires
        old(cache).wf(),
    ensures
        final(cache).wf(),
        r is Some <==> is_answer(payload@),
        r matches Some(e) ==> e is DnsResponse,
        final(cache).known() == (if is_answer(payload@) {
            learned(payload@, old(cache).known())
        } else {
            old(cache).known()
        }),
{
    match cache.handle_dns_packet(payload) {
        Ok(_) => Some(NetEvent::DnsResponse),
        Err(_) => None,
    }
}

} // verus!

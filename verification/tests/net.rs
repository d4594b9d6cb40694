use idos::api::io::IoError;
use idos::net::address::{endpoint_key, AsyncCallback, Ipv4Address, SocketId, SocketPort};
use idos::net::device::{dns_event, ActiveWrite, NetDevice, NetEvent, Packet, ReadOutcome};
use idos::net::dns::{DnsCache, DnsHeader, DnsParser, DnsPort, DnsQuestion, RecordData};
use idos::net::listen::{ListenerConnections, TcpListener, UdpListener, UdpQueue};
use idos::net::tcp::{TcpAction, TcpConnection, TcpHeader, TcpState, FLAG_ACK, FLAG_FIN, FLAG_PSH, FLAG_RST, FLAG_SYN};

const ME: Ipv4Address = Ipv4Address([10, 0, 2, 15]);
const THEM: Ipv4Address = Ipv4Address([10, 0, 2, 2]);

fn callback(op_id: u32) -> AsyncCallback {
    AsyncCallback { task: 1, io_index: 2, op_id }
}

fn header(sequence_number: u32, ack_number: u32) -> TcpHeader {
    TcpHeader {
        source_port: 4000,
        dest_port: 80,
        sequence_number,
        ack_number,
        syn: false,
        ack: true,
        fin: false,
        rst: false,
    }
}

fn open_connection() -> TcpConnection {
    let mut c = TcpConnection::new(SocketId(7), SocketPort(80), THEM, SocketPort(4000), false, None);
    c.handle_packet(ME, THEM, &header(100, 1), &[], true);
    assert_eq!(c.state, TcpState::Established);
    c
}

#[test]
fn names_are_encoded() {
    let q = DnsQuestion::a_record(b"www.example.com");
    match &q {
        DnsQuestion::A(name) => assert_eq!(name, b"\x03www\x07example\x03com\x00"),
        _ => panic!("wrong question"),
    }
    assert_eq!(q.name_length(), 18);
    let packet = DnsHeader::build_query_packet(0x1234, &vec![q]);
    assert_eq!(&packet[..12], &[0x12, 0x34, 1, 0, 0, 1, 0, 0, 0, 0, 0, 0]);
    assert_eq!(&packet[packet.len() - 4..], &[0, 1, 0, 1]);
    let mut p = DnsParser::new(&packet[12..]);
    match p.parse_question() {
        Ok(DnsQuestion::A(name)) => assert_eq!(name, b"www.example.com".to_vec()),
        _ => panic!("not read"),
    }
    assert_eq!(p.pos, packet.len() - 12);
}

fn answer() -> Vec<u8> {
    let mut s = vec![0x12, 0x34, 0x81, 0x80, 0, 1, 0, 2, 0, 0, 0, 0];
    s.extend_from_slice(b"\x01a\x02bc\x00\x00\x01\x00\x01");
    s.extend_from_slice(b"\xc0\x0c\x00\x05\x00\x01\x00\x00\x00\x3c\x00\x04\x01x\xc0\x0e");
    s.extend_from_slice(b"\x01x\xc0\x0e\x00\x01\x00\x01\x00\x00\x00\x3c\x00\x04\x0a\x00\x00\x01");
    s
}

#[test]
fn answers_fill_the_cache() {
    let mut cache = DnsCache::new();
    assert_eq!(cache.handle_dns_packet(&answer()), Ok(()));
    assert_eq!(cache.lookup_dns(b"x.bc").map(|a| a.0), Some([10, 0, 0, 1]));
    assert!(cache.lookup_dns(b"a.bc").is_none());
    cache.add_dns_cache(b"x.bc".to_vec(), Ipv4Address([1, 2, 3, 4]));
    assert_eq!(cache.lookup_dns(b"x.bc").map(|a| a.0), Some([1, 2, 3, 4]));
    assert!(matches!(dns_event(&mut cache, &answer()), Some(NetEvent::DnsResponse)));
    assert!(dns_event(&mut cache, &answer()[..11]).is_none());
    let mut query = answer();
    query[3] = 0;
    assert_eq!(cache.handle_dns_packet(&query), Err(()));
    let mut none = answer();
    none[7] = 0;
    assert_eq!(cache.handle_dns_packet(&none), Err(()));
}

#[test]
fn records_are_read() {
    let s = answer();
    let mut p = DnsParser::new(&s[12..]);
    assert!(p.parse_question().is_ok());
    match p.parse_answer() {
        Ok(r) => {
            assert_eq!(r.name, b"a.bc".to_vec());
            assert_eq!((r.record_type, r.class, r.ttl), (5, 1, 60));
            assert!(matches!(r.record_data, RecordData::Cname(n) if n == b"x.bc"));
        }
        Err(_) => panic!("not read"),
    }
}

#[test]
fn bad_names_are_refused() {
    assert!(DnsParser::new(b"\xc0\x0c").parse_name().is_err());
    assert!(DnsParser::new(b"\xc0\x00").parse_name().is_err());
    assert!(DnsParser::new(b"\x40abc").parse_name().is_err());
    assert!(DnsParser::new(b"\x05ab").parse_name().is_err());
    let mut p = DnsParser::new(b"\x01\xff\x00");
    assert_eq!(p.parse_name(), Ok("\u{fffd}".as_bytes().to_vec()));
    let mut p = DnsParser::new(&[1, 2, 3, 4, 5]);
    assert_eq!(p.read_u32(), Ok(0x01020304));
    assert_eq!(p.read_u16(), Err(()));
    assert_eq!(p.read_u8(), Ok(5));
    assert_eq!(p.read_u8(), Err(()));
}

#[test]
fn dns_port_is_kept() {
    let mut port = DnsPort { port: 0 };
    assert_eq!(port.get_dns_port(5000), 5000);
    assert_eq!(port.get_dns_port(6000), 5000);
}

#[test]
fn handshake_of_a_listener() {
    let mut l = TcpListener::new(SocketPort(80));
    let mut next_id = 9;
    let (result, new) = l.accept(callback(1), &mut next_id);
    assert!(result.is_none() && new.is_none());
    let mut syn = header(500, 0);
    syn.syn = true;
    syn.ack = false;
    let new = l.handle_packet(ME, THEM, &syn, &mut next_id).unwrap();
    assert_eq!((new.socket_id, next_id), (SocketId(9), 10));
    assert_eq!(new.response.flags, FLAG_SYN | FLAG_ACK);
    assert_eq!(new.response.acknowledged, 501);
    assert_eq!(l.connections.find(THEM, SocketPort(4000)), Some(SocketId(9)));
    let mut c = new.connection;
    let out = c.handle_packet(ME, THEM, &header(501, 1), &[], true);
    assert_eq!(out.connected, Some((callback(1), true)));
    assert!(out.reply.is_none());
    assert_eq!(c.state, TcpState::Established);
}

#[test]
fn callers_wait_for_an_accept() {
    let mut l = TcpListener::new(SocketPort(80));
    let mut next_id = 1;
    let mut syn = header(500, 0);
    syn.syn = true;
    assert!(l.handle_packet(ME, THEM, &syn, &mut next_id).is_none());
    assert_eq!(l.pending_syn.len(), 1);
    assert!(l.handle_packet(ME, THEM, &header(1, 1), &mut next_id).is_none());
    assert_eq!(next_id, 1);
    let (result, new) = l.accept(callback(4), &mut next_id);
    assert!(result.is_none());
    let new = new.unwrap();
    assert_eq!((new.socket_id, next_id), (SocketId(1), 2));
    assert_eq!(new.response.flags, FLAG_SYN | FLAG_ACK);
    assert_eq!(new.response.acknowledged, 501);
    assert_eq!(new.response.remote_address.0, THEM.0);
    assert!(l.pending_syn.is_empty() && l.pending_accept.is_empty());
    assert_eq!(l.connections.find(THEM, SocketPort(4000)), Some(SocketId(1)));
}

#[test]
fn outbound_connection_is_acknowledged() {
    let mut c = TcpConnection::new(
        SocketId(3),
        SocketPort(1024),
        THEM,
        SocketPort(80),
        true,
        Some((callback(4), false)),
    );
    let mut h = header(u32::MAX, 1);
    assert_eq!(c.action_for_tcp_packet(&h), TcpAction::Reset);
    h.syn = true;
    let out = c.handle_packet(ME, THEM, &h, &[], true);
    assert_eq!(out.completions[0].callback, callback(4));
    assert_eq!(out.completions[0].result, Ok(3));
    let reply = out.reply.unwrap();
    assert_eq!((reply.sequence, reply.acknowledged, reply.flags), (1, 0, FLAG_ACK));
}

#[test]
fn data_is_kept_and_read() {
    let mut c = open_connection();
    let out = c.handle_packet(ME, THEM, &header(101, 1), b"hello", true);
    assert_eq!(out.reply.unwrap().acknowledged, 106);
    let mut buffer = [0u8; 3];
    assert_eq!(c.read(&mut buffer, 0, callback(1)), Some(Ok(3)));
    assert_eq!(&buffer, b"hel");
    let mut buffer = [0u8; 8];
    assert_eq!(c.read(&mut buffer, 0, callback(1)), Some(Ok(2)));
    assert_eq!(&buffer[..2], b"lo");
    assert_eq!(c.read(&mut buffer, 0xffe, callback(2)), None);
    let out = c.handle_packet(ME, THEM, &header(106, 1), b"world", true);
    let d = out.delivery.unwrap();
    assert_eq!((d.buffer_paddr, d.data), (0xffe, b"wo".to_vec()));
    assert_eq!(out.completions[0].result, Ok(2));
    assert_eq!(c.available_data, b"rld".to_vec());
}

#[test]
fn closing_ends_reads() {
    let mut c = open_connection();
    let mut buffer = [0u8; 8];
    assert_eq!(c.read(&mut buffer, 0, callback(1)), None);
    let mut fin = header(101, 1);
    fin.fin = true;
    let out = c.handle_packet(ME, THEM, &fin, &[], true);
    assert_eq!(out.completions.len(), 1);
    assert_eq!(out.completions[0].result, Ok(0));
    let reply = out.reply.unwrap();
    assert_eq!((reply.flags, reply.acknowledged), (FLAG_FIN | FLAG_ACK, 102));
    assert_eq!(c.read(&mut buffer, 0, callback(2)), Some(Ok(0)));
    assert_eq!(c.write(b"x").0, Some(Err(IoError::OperationFailed)));
    let mut c = open_connection();
    let mut syn = header(1, 1);
    syn.syn = true;
    assert_eq!(c.handle_packet(ME, THEM, &syn, &[], true).reply.unwrap().flags, FLAG_RST | FLAG_ACK);
    let mut rst = header(1, 1);
    rst.rst = true;
    assert!(c.handle_packet(ME, THEM, &rst, &[], true).reply.is_none());
}

#[test]
fn writes_are_cut_into_segments() {
    let mut c = open_connection();
    let data = vec![5u8; 3000];
    let (result, segments) = c.write(&data);
    assert_eq!(result, Some(Ok(3000)));
    assert_eq!(segments.iter().map(|s| s.data.len()).collect::<Vec<_>>(), vec![1460, 1460, 80]);
    assert_eq!(segments.iter().map(|s| s.sequence).collect::<Vec<_>>(), vec![1, 1461, 2921]);
    assert_eq!(segments[0].flags, FLAG_ACK);
    assert_eq!(segments[2].flags, FLAG_ACK | FLAG_PSH);
    assert!(c.write(&[]).1.is_empty());
}

#[test]
fn datagrams_wait_for_an_address() {
    let l = UdpListener::new(SocketPort(53));
    let mut q = UdpQueue::new();
    assert_eq!(l.write(&[1, 2, 3], callback(1), &mut q).0, Some(Err(IoError::InvalidArgument)));
    let (r, d) = l.write(&[8, 8, 8, 8, 0x12, 0x34, b'h', b'i'], callback(1), &mut q);
    assert!(r.is_none() && d.is_none());
    assert!(q.get_resolved_local_ip().is_none());
    let sent = q.flush_pending_udp_writes(ME);
    assert_eq!(sent.len(), 1);
    assert_eq!(sent[0].dest_ip.0, [8, 8, 8, 8]);
    assert_eq!(sent[0].dest_port, 0x1234);
    assert_eq!(sent[0].payload, b"hi".to_vec());
    assert_eq!(sent[0].completion.result, Ok(2));
    let (r, d) = l.write(&[8, 8, 4, 4, 0, 1], callback(2), &mut q);
    assert_eq!(r, Some(Ok(0)));
    assert_eq!(d.unwrap().source_ip.0, ME.0);
}

#[test]
fn datagrams_are_read_in_order() {
    let mut l = UdpListener::new(SocketPort(53));
    assert!(l.handle_packet(b"first").is_none());
    assert!(l.handle_packet(b"second").is_none());
    let mut buffer = [0u8; 4];
    assert_eq!(l.read(&mut buffer, 0x5000, callback(1)), Some(Ok(4)));
    assert_eq!(&buffer, b"firs");
    let mut buffer = [7u8; 8];
    assert_eq!(l.read(&mut buffer, 0x5000, callback(2)), Some(Ok(6)));
    assert_eq!(&buffer, b"second\x07\x07");
    assert!(l.read(&mut buffer, 0x5ffd, callback(3)).is_none());
    let (delivery, completion) = l.handle_packet(b"third").unwrap();
    assert_eq!((delivery.buffer_paddr, delivery.data), (0x5ffd, b"thi".to_vec()));
    assert_eq!(completion.callback, callback(3));
    assert_eq!(completion.result, Ok(3));
    assert!(l.pending_reads.is_empty() && l.packets.is_empty());
}

#[test]
fn connections_are_looked_up() {
    let mut c = ListenerConnections::new();
    c.add(ME, SocketPort(1), SocketId(10));
    c.add(THEM, SocketPort(1), SocketId(11));
    assert_eq!(c.find(ME, SocketPort(1)), Some(SocketId(10)));
    assert_eq!(c.find(ME, SocketPort(2)), None);
    assert_eq!(c.remove(ME, SocketPort(1)), Some(SocketId(10)));
    assert_eq!(c.find(ME, SocketPort(1)), None);
    assert_eq!(c.find(THEM, SocketPort(1)), Some(SocketId(11)));
    assert_eq!(endpoint_key(Ipv4Address([1, 2, 3, 4]), SocketPort(5)), 0x0102_0304_0005);
}

fn put(device: &mut NetDevice, at: usize, bytes: &[u8]) {
    device.read_buffer[at..at + bytes.len()].copy_from_slice(bytes);
}

#[test]
fn device_opens_and_reads() {
    let mut d = NetDevice::new(0x52540012_3456);
    assert!(matches!(d.process_read_result(false, 0, 0), ReadOutcome::Nothing));
    assert!(matches!(d.process_read_result(true, 0x8000_0001, 0), ReadOutcome::Nothing));
    assert!(!d.is_open);
    assert!(matches!(d.process_read_result(true, 1, 0), ReadOutcome::Opened));
    assert!(matches!(d.process_read_result(true, 0, 0), ReadOutcome::Again));
    put(&mut d, 12, &[8, 6]);
    put(&mut d, 20, &[0, 2]);
    put(&mut d, 22, &[1, 2, 3, 4, 5, 6, 10, 0, 2, 2]);
    match d.process_read_result(true, 60, 0) {
        ReadOutcome::Received(Packet::Arp { ip, mac }) => {
            assert_eq!(ip.0, [10, 0, 2, 2]);
            assert_eq!(mac, 0x0102_0304_0506);
        }
        _ => panic!("no address"),
    }
    assert_eq!(d.known_arp.get(&0x0a000202), Some(&0x0102_0304_0506));
    assert!(d.read_buffer.iter().all(|b| *b == 0));
}

#[test]
fn packets_are_told_apart() {
    let mut d = NetDevice::new(0);
    d.is_open = true;
    put(&mut d, 12, &[8, 0]);
    put(&mut d, 16, &[0, 30]);
    put(&mut d, 23, &[17]);
    put(&mut d, 26, &[1, 2, 3, 4, 10, 0, 2, 15]);
    put(&mut d, 34, &[0x11, 0x22, 0, 68, 0, 10, 0, 0, b'o', b'k']);
    match d.process_read_result(true, 44, 5353) {
        ReadOutcome::Received(Packet::Dhcp { payload }) => assert_eq!(payload, b"ok".to_vec()),
        _ => panic!("not settings"),
    }
    put(&mut d, 12, &[8, 0]);
    put(&mut d, 16, &[0, 30]);
    put(&mut d, 23, &[17]);
    put(&mut d, 34, &[0x11, 0x22, 0x14, 0xe9, 0, 10, 0, 0, b'o', b'k']);
    assert!(matches!(
        d.process_read_result(true, 44, 5353),
        ReadOutcome::Received(Packet::Dns { .. })
    ));
    put(&mut d, 12, &[8, 0]);
    put(&mut d, 16, &[0, 42]);
    put(&mut d, 23, &[6]);
    put(&mut d, 26, &[1, 2, 3, 4, 10, 0, 2, 15]);
    put(&mut d, 34, &[0, 80, 0x10, 0, 0, 0, 0, 9, 0, 0, 0, 8, 0x50, 0x12]);
    put(&mut d, 54, b"hi");
    match d.process_read_result(true, 56, 5353) {
        ReadOutcome::Received(Packet::Tcp { dest, source, header, payload }) => {
            assert_eq!((dest.0, source.0), ([10, 0, 2, 15], [1, 2, 3, 4]));
            assert_eq!((header.source_port, header.dest_port), (80, 4096));
            assert!(header.syn && header.ack && !header.fin && !header.rst);
            assert_eq!((header.sequence_number, header.ack_number), (9, 8));
            assert_eq!(payload, b"hi".to_vec());
        }
        _ => panic!("no connection"),
    }
}

#[test]
fn sent_frames_are_forgotten() {
    let mut d = NetDevice::new(0);
    assert_eq!(NetDevice::send_raw(b"head", b"body"), b"headbody".to_vec());
    d.add_write(ActiveWrite { frame: vec![1], complete: true });
    d.add_write(ActiveWrite { frame: vec![2], complete: false });
    d.add_write(ActiveWrite { frame: vec![3], complete: true });
    d.clear_completed_writes();
    assert_eq!(d.active_writes.len(), 1);
    assert_eq!(d.active_writes[0].frame, vec![2]);
}

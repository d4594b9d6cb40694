//! What holds of packets and of the answers to questions for names.
use vstd::prelude::*;

use crate::net::device::{ip_key, known_after, packet_in, read_outcome, PacketModel, ReadModel};
use crate::net::dns::{
    after_questions, answer_at, dotted, encoded_name, good_labels, labels, learned, learned_from,
    name_at, name_from, name_round_trip, name_step, names_that_end_are_read, query_packet, question_bytes, swapped,
    DnsCache, DnsHeader, DnsQuestion, NameStep,
};

verus! {

/// A number in two bytes, the high one first.
pub open spec fn two(hi: u8, lo: u8) -> int {
    hi * 256 + lo
}

/// A name is parted at its dots.
pub proof fn dots_part_labels(front: Seq<u8>, label: Seq<u8>)
    requires
        !label.contains(0x2e),
    ensures
        labels(label) == seq![label],
        labels(front + seq![0x2eu8] + label) == labels(front).push(label),
    decreases label.len(),
{
    let s = front + seq![0x2eu8] + label;
    if label.len() == 0 {
        assert(label =~= Seq::empty());
        assert(s.drop_last() =~= front);
        assert(s.last() == 0x2e);
        assert(labels(label) =~= seq![label]);
        assert(labels(s) =~= labels(front).push(label));
    } else {
        let short = label.drop_last();
        assert(!short.contains(0x2e)) by {
            if short.contains(0x2e) {
                let i = choose|i: int| 0 <= i < short.len() && short[i] == 0x2e;
                assert(label[i] == 0x2e);
            }
        }
        assert(label.contains(label.last()));
        dots_part_labels(front, short);
        assert(s.drop_last() =~= front + seq![0x2eu8] + short);
        assert(s.last() == label.last());
        assert(short.push(label.last()) =~= label);
        assert(labels(label) =~= seq![label]);
        assert(labels(s) =~= labels(front).push(label));
    }
}

proof fn lemma_back(packet: Seq<u8>, pos: int, a: int, parts: Seq<Seq<u8>>, fuel: nat)
    ensures
        name_from(packet, pos, Some(a), parts, fuel).0 == name_from(packet, pos, None, parts, fuel).0,
        name_from(packet, pos, Some(a), parts, fuel).0 is Some ==> name_from(
            packet, pos, Some(a), parts, fuel,
        ).1 == a,
    decreases fuel,
{
    if fuel > 0 {
        match name_step(packet, pos) {
            NameStep::Jump(target) => {
                lemma_back(packet, target, a, parts, (fuel - 1) as nat);
                lemma_back(packet, target, pos + 2, parts, (fuel - 1) as nat);
            },
            NameStep::Label(label, next) => {
                lemma_back(packet, next, a, parts.push(label), (fuel - 1) as nat);
            },
            _ => {},
        }
    }
}

/// A pointer stands for the name that it points at, counted from the start of the message, and
/// reading goes on behind the pointer.
pub proof fn pointers_are_followed(packet: Seq<u8>, pos: int, parts: Seq<Seq<u8>>)
    requires
        0 <= pos,
        pos + 1 < packet.len(),
        packet[pos] >= 0xc0,
        ({
            let target = two((packet[pos] - 0xc0) as u8, packet[pos + 1]) - 12;
            &&& 0 <= target < packet.len()
            &&& name_at(packet, target).0 == Some(parts)
        }),
    ensures
        name_at(packet, pos) == (Some(parts), pos + 2),
{
    let target = two((packet[pos] - 0xc0) as u8, packet[pos + 1]) - 12;
    assert(packet[pos] as int % 64 == packet[pos] - 0xc0);
    assert(name_step(packet, pos) == NameStep::Jump(target));
    lemma_back(packet, target, pos + 2, Seq::empty(), packet.len());
    let fuel = (packet.len() + 1) as nat;
    assert(name_from(packet, pos, None, Seq::empty(), fuel) == name_from(
        packet, target, Some(pos + 2), Seq::empty(), packet.len(),
    ));
    names_that_end_are_read(packet, pos, fuel);
}

/// An answer with an address, as it stands in a message.
pub open spec fn address_record(name: Seq<u8>, ttl: Seq<u8>, ip: Seq<u8>) -> Seq<u8> {
    encoded_name(name) + seq![0u8, 1, 0, 1] + ttl + seq![0u8, 4] + ip
}

/// An answer with an address gives the name, the address, and how long they hold, the high bytes
/// first. Reading goes on behind it.
pub proof fn answers_give_addresses(
    before: Seq<u8>, name: Seq<u8>, ttl: Seq<u8>, ip: Seq<u8>, after: Seq<u8>,
)
    requires
        good_labels(labels(name)),
        ttl.len() == 4,
        ip.len() == 4,
    ensures
        ({
            let record = address_record(name, ttl, ip);
            let (answer, next) = answer_at(before + record + after, before.len() as int);
            &&& next == before.len() + record.len()
            &&& answer matches Some(a) && {
                &&& a.name == dotted(labels(name))
                &&& a.record_type == 1 && a.class == 1
                &&& a.ttl == ((ttl[0] * 256 + ttl[1]) * 256 + ttl[2]) * 256 + ttl[3]
                &&& a.address == Some(ip)
                &&& a.cname is None
            }
        }),
{
    let record = address_record(name, ttl, ip);
    let packet = before + record + after;
    let tail = seq![0u8, 1, 0, 1] + ttl + seq![0u8, 4] + ip;
    name_round_trip(before, name, tail + after);
    assert(before + encoded_name(name) + (tail + after) =~= packet);
    let p: int = (before.len() + encoded_name(name).len()) as int;
    assert forall|k: int| 0 <= k < 14 implies #[trigger] packet[p + k] == tail[k] by {}
    assert(packet[p + 0] == tail[0] && packet[p + 1] == tail[1] && packet[p + 2] == tail[2] && packet[p
        + 3] == tail[3]);
    assert(packet[p + 4] == tail[4] && packet[p + 5] == tail[5] && packet[p + 6] == tail[6] && packet[p
        + 7] == tail[7] && packet[p + 8] == tail[8] && packet[p + 9] == tail[9]);
    assert(tail[0] == 0 && tail[1] == 1 && tail[2] == 0 && tail[3] == 1);
    assert(tail[4] == ttl[0] && tail[5] == ttl[1] && tail[6] == ttl[2] && tail[7] == ttl[3]);
    assert(tail[8] == 0 && tail[9] == 4);
    assert(packet.subrange(p + 10, p + 14) =~= ip);
}

/// The answer to a question is kept: after a message with the question for the address of a name
/// and one answer for it, the name has that address, and other names have those they had.
pub proof fn answers_are_learned(
    head: Seq<u8>, name: Seq<u8>, question: DnsQuestion, ttl: Seq<u8>, ip: Seq<u8>,
    known: Map<Seq<u8>, Seq<u8>>,
)
    requires
        head.len() == 12,
        head[4] == 0 && head[5] == 1,
        head[6] == 0 && head[7] == 1,
        good_labels(labels(name)),
        question is A,
        question.name() == encoded_name(name),
        ttl.len() == 4,
        ip.len() == 4,
    ensures
        learned(head + question.bytes() + address_record(name, ttl, ip), known) == known.insert(
            dotted(labels(name)), ip,
        ),
{
    reveal_with_fuel(after_questions, 2);
    reveal_with_fuel(learned_from, 2);
    let record = address_record(name, ttl, ip);
    let packet = head + question.bytes() + record;
    let body = packet.skip(12);
    assert(body =~= question.bytes() + record);
    let h = DnsHeader::of(packet);
    assert(packet[4] == 0 && packet[5] == 1 && packet[6] == 0 && packet[7] == 1);
    assert(swapped(h.question_count) == 1);
    assert(swapped(h.answer_count) == 1);
    crate::net::dns::question_round_trip(name, question, record);
    answers_give_addresses(question.bytes(), name, ttl, ip, Seq::empty());
    assert(question.bytes() + record + Seq::<u8>::empty() =~= body);
}

/// The frame in a buffer carries an internet packet: its type, its protocol, and its length with
/// twenty bytes of header.
pub open spec fn carries(s: Seq<u8>, protocol: u8, len: int) -> bool {
    &&& 14 + 20 + len <= s.len()
    &&& s[12] == 0x08 && s[13] == 0x00
    &&& two(s[16], s[17]) == 20 + len
    &&& s[23] == protocol
}

/// A datagram in a frame is taken apart: the port that it is for decides who gets it, the data
/// behind its header is what they get.
pub proof fn datagrams_are_taken_apart(s: Seq<u8>, data: Seq<u8>, dns_port: u16)
    requires
        carries(s, 17, 8int + data.len()),
        s.subrange(42, 42int + data.len()) == data,
    ensures
        ({
            let port = two(s[36], s[37]);
            &&& port == 68 ==> packet_in(s, dns_port) == PacketModel::Dhcp(data)
            &&& port != 68 && port == dns_port ==> packet_in(s, dns_port) == PacketModel::Dns(data)
            &&& port != 68 && port != dns_port ==> {
                &&& packet_in(s, dns_port) matches PacketModel::Udp(to, source, from, payload)
                &&& to == port
                &&& source == seq![s[26], s[27], s[28], s[29]]
                &&& from == s[34] + s[35] * 256
                &&& payload == data
            }
        }),
{
    assert(s.subrange(26, 30) =~= seq![s[26], s[27], s[28], s[29]]);
}

/// A packet for a connection is taken apart: ports, numbers with the high bytes first, marks, and
/// the data behind the header.
pub proof fn segments_are_taken_apart(s: Seq<u8>, data: Seq<u8>, dns_port: u16)
    requires
        carries(s, 6, 20int + data.len()),
        s.subrange(54, 54int + data.len()) == data,
    ensures
        ({
            &&& packet_in(s, dns_port) matches PacketModel::Tcp(dest, source, h, payload)
            &&& dest == seq![s[30], s[31], s[32], s[33]]
            &&& source == seq![s[26], s[27], s[28], s[29]]
            &&& h.source_port == two(s[34], s[35]) && h.dest_port == two(s[36], s[37])
            &&& h.sequence_number == two(s[38], s[39]) * 0x1_0000 + two(s[40], s[41])
            &&& h.ack_number == two(s[42], s[43]) * 0x1_0000 + two(s[44], s[45])
            &&& h.fin == (s[47] as int % 2 == 1)
            &&& h.syn == (s[47] as int / 2 % 2 == 1)
            &&& h.rst == (s[47] as int / 4 % 2 == 1)
            &&& h.ack == (s[47] as int / 16 % 2 == 1)
            &&& payload == data
        }),
{
    assert(s.subrange(26, 30) =~= seq![s[26], s[27], s[28], s[29]]);
    assert(s.subrange(30, 34) =~= seq![s[30], s[31], s[32], s[33]]);
}

/// The answer to the question who has an internet address tells the hardware address of that one.
/// Questions and frames of other kinds are passed over.
pub proof fn hardware_addresses_are_read(s: Seq<u8>, dns_port: u16)
    requires
        s.len() >= 42,
    ensures
        s[12] == 0x08 && s[13] == 0x06 && two(s[20], s[21]) != 1 ==> {
            &&& packet_in(s, dns_port) matches PacketModel::Arp(ip, mac)
            &&& ip == seq![s[28], s[29], s[30], s[31]]
            &&& mac == ((two(s[22], s[23]) * 0x1_0000 + two(s[24], s[25])) * 0x1_0000 + two(
                s[26], s[27],
            ))
        },
        s[12] == 0x08 && s[13] == 0x06 && two(s[20], s[21]) == 1 ==> packet_in(s, dns_port) is Ignored,
        s[12] != 0x08 || (s[13] != 0x00 && s[13] != 0x06) ==> packet_in(s, dns_port) is Ignored,
{
    assert(s.subrange(28, 32) =~= seq![s[28], s[29], s[30], s[31]]);
}

/// A query begins with its number, asks for the whole answer, and says how many questions follow.
/// Each question is the name, its kind and its class.
pub proof fn queries_ask_their_questions(xid: u16, questions: Seq<DnsQuestion>, q: DnsQuestion)
    requires
        questions.len() + 1 < 0x1_0000,
    ensures
        ({
            let p = query_packet(xid, questions.push(q));
            let n = questions.len() + 1;
            let before = query_packet(xid, questions);
            &&& two(p[0], p[1]) == xid
            &&& two(p[2], p[3]) == 0x0100
            &&& two(p[4], p[5]) == n
            &&& p.subrange(6, 12) == Seq::new(6, |i: int| 0u8)
            &&& p.skip(12) == before.skip(12) + q.name() + (match q {
                DnsQuestion::A(_) => seq![0u8, 1u8, 0u8, 1u8],
                DnsQuestion::Cname(_) => seq![0u8, 5u8, 0u8, 1u8],
            })
            &&& query_packet(xid, Seq::empty()).len() == 12
        }),
{
    let all = questions.push(q);
    assert(all.drop_last() =~= questions);
    let p = query_packet(xid, all);
    let before = query_packet(xid, questions);
    lemma_swapped(xid);
    lemma_swapped(crate::net::dns::FLAG_RD);
    lemma_swapped((all.len() % 0x1_0000) as u16);
    assert(p.subrange(6, 12) =~= Seq::new(6, |i: int| 0u8));
    assert(before.skip(12) =~= question_bytes(questions));
    assert(p.skip(12) =~= question_bytes(all));
    assert(question_bytes(all) =~= question_bytes(questions) + q.name() + (match q {
        DnsQuestion::A(_) => seq![0u8, 1u8, 0u8, 1u8],
        DnsQuestion::Cname(_) => seq![0u8, 5u8, 0u8, 1u8],
    }));
    assert(query_packet(xid, Seq::empty()).len() == 12);
}

proof fn lemma_swapped(x: u16)
    ensures
        swapped(x) % 256 == x / 256,
        swapped(x) / 256 == x % 256,
{
}

/// An answer with a hardware address is remembered for its internet address, and for no other. No other
/// packet changes what is known.
pub proof fn hardware_addresses_are_remembered(
    known: Map<u32, u64>, ip: Seq<u8>, mac: u64, other: Seq<u8>, read: ReadModel,
)
    requires
        ip.len() == 4,
        other.len() == 4,
        other != ip,
    ensures
        ({
            let after = known_after(known, ReadModel::Received(PacketModel::Arp(ip, mac)));
            &&& after.dom().contains(ip_key(ip)) && after[ip_key(ip)] == mac
            &&& after.dom().contains(ip_key(other)) == known.dom().contains(ip_key(other))
            &&& known.dom().contains(ip_key(other)) ==> after[ip_key(other)] == known[ip_key(other)]
        }),
        !(read matches ReadModel::Received(PacketModel::Arp(_, _))) ==> known_after(known, read) == known,
{
    if ip_key(ip) == ip_key(other) {
        assert(ip =~= other);
    }
}

/// A device that is not open yet is opened by its first result. Then a result with bytes is a packet,
/// and one that failed or has none is tried again. A read that is not over tells nothing.
pub proof fn reads_of_the_device_are_told(result: u32, buffer: Seq<u8>, dns_port: u16)
    ensures
        read_outcome(false, false, result, buffer, dns_port) is Nothing,
        read_outcome(true, false, result, buffer, dns_port) is Nothing,
        result < 0x8000_0000 ==> read_outcome(false, true, result, buffer, dns_port) is Opened,
        result >= 0x8000_0000 ==> read_outcome(false, true, result, buffer, dns_port) is Nothing,
        0 < result < 0x8000_0000 ==> read_outcome(true, true, result, buffer, dns_port)
            == ReadModel::Received(packet_in(buffer, dns_port)),
        result == 0 || result >= 0x8000_0000 ==> read_outcome(true, true, result, buffer, dns_port)
            is Again,
{
}

/// Each name that is kept leads to the address that is kept with it, and no other name is known.
pub proof fn names_lead_to_their_addresses(cache: DnsCache, i: int, name: Seq<u8>)
    requires
        cache.wf(),
        0 <= i < cache.names@.len(),
    ensures
        cache.known().dom().contains(cache.names@[i]@),
        cache.known()[cache.names@[i]@] == cache.addresses@[i]@,
        (forall|j: int| 0 <= j < cache.names@.len() ==> (#[trigger] cache.names@[j])@ != name)
            ==> !cache.known().dom().contains(name),
{
    let text = cache.names@[i]@;
    let j = choose|j: int| 0 <= j < cache.names@.len() && (#[trigger] cache.names@[j])@ == text;
    assert(j == i);
    assert(cache.find(text) == Some(cache.addresses@[i]@));
}

} // verus!

//! Domain names: questions, answers and the cache.
use vstd::prelude::*;

use crate::net::address::Ipv4Address;
use crate::text::{bytes_equal, lossy_utf8, push_bytes, utf8_lossy};

verus! {

/// The header of a message, each field with its bytes as they are sent, the first in
/// the low half.
#[derive(Clone, Copy, PartialEq, Eq, Structural, Debug)]
pub struct DnsHeader {
    pub id: u16,
    pub flags: u16,
    pub question_count: u16,
    pub answer_count: u16,
    pub authority_count: u16,
    pub additional_count: u16,
}

pub const HEADER_SIZE: usize = 12;
pub const FLAG_RESPONSE: u16 = 0x8000;
pub const FLAG_RD: u16 = 0x0100;

/// The two bytes of a field the other way round.
pub open spec fn swapped(x: u16) -> u16 {
    ((x % 256) * 256 + x / 256) as u16
}

/// Between the order of the machine and the order of the network.
pub fn swap_bytes(x: u16) -> (r: u16)
    ensures
        r == swapped(x),
{
    (x % 256) * 256 + x / 256
}

/// Two bytes, the low one first.
pub open spec fn field_bytes(x: u16) -> Seq<u8> {
    seq![(x % 256) as u8, (x / 256) as u8]
}

pub open spec fn field_at(s: Seq<u8>, at: int) -> u16 {
    (s[at] + s[at + 1] * 256) as u16
}

fn push_field(out: &mut Vec<u8>, x: u16)
    ensures
        final(out)@ == old(out)@ + field_bytes(x),
{
    out.push((x % 256) as u8);
    out.push((x / 256) as u8);
    assert(out@ =~= old(out)@ + field_bytes(x));
}

fn read_field(s: &[u8], at: usize) -> (r: u16)
    requires
        at + 1 < s@.len(),
    ensures
        r == field_at(s@, at as int),
{
    s[at] as u16 + s[at + 1] as u16 * 256
}

impl DnsHeader {
    /// The header as it is sent.
    pub open spec fn bytes(&self) -> Seq<u8> {
        field_bytes(self.id) + field_bytes(self.flags) + field_bytes(self.question_count)
            + field_bytes(self.answer_count) + field_bytes(self.authority_count) + field_bytes(
            self.additional_count,
        )
    }

    /// The header at the front of a message.
    pub open spec fn of(packet: Seq<u8>) -> DnsHeader {
        DnsHeader {
            id: field_at(packet, 0),
            flags: field_at(packet, 2),
            question_count: field_at(packet, 4),
            answer_count: field_at(packet, 6),
            authority_count: field_at(packet, 8),
            additional_count: field_at(packet, 10),
        }
    }

    /// The header of a message that is long enough to have one.
    pub fn try_from_u8_buffer(packet: &[u8]) -> (r: Option<DnsHeader>)
        ensures
            r == (if packet@.len() < HEADER_SIZE { None } else { Some(Self::of(packet@)) }),
    {
        if packet.len() < HEADER_SIZE {
            return None;
        }
        Some(
            DnsHeader {
                id: read_field(packet, 0),
                flags: read_field(packet, 2),
                question_count: read_field(packet, 4),
                answer_count: read_field(packet, 6),
                authority_count: read_field(packet, 8),
                additional_count: read_field(packet, 10),
            },
        )
    }

    /// Whether the top bit of the flags is set, as they are stored.
    pub fn is_response(&self) -> (r: bool)
        ensures
            r == (self.flags & FLAG_RESPONSE != 0),
    {
        self.flags & FLAG_RESPONSE != 0
    }

    /// The header of a query that asks for recursion.
    pub fn build_query_header(id: u16, question_count: u16) -> (r: Self)
        ensures
            r == (DnsHeader {
                id: swapped(id),
                flags: swapped(FLAG_RD),
                question_count: swapped(question_count),
                answer_count: 0,
                authority_count: 0,
                additional_count: 0,
            }),
    {
        DnsHeader {
            id: swap_bytes(id),
            flags: swap_bytes(FLAG_RD),
            question_count: swap_bytes(question_count),
            answer_count: 0,
            authority_count: 0,
            additional_count: 0,
        }
    }

    /// A query, with a number by which its answer is known.
    pub fn build_query_packet(xid: u16, questions: &Vec<DnsQuestion>) -> (r: Vec<u8>)
        ensures
            r@ == query_packet(xid, questions@),
    {
        let header: DnsHeader = Self::build_query_header(xid, (questions.len() % 0x1_0000) as u16);
        let mut packet: Vec<u8> = Vec::new();
        push_field(&mut packet, header.id);
        push_field(&mut packet, header.flags);
        push_field(&mut packet, header.question_count);
        push_field(&mut packet, header.answer_count);
        push_field(&mut packet, header.authority_count);
        push_field(&mut packet, header.additional_count);
        assert(packet@ =~= header.bytes());
        let mut i: usize = 0;
        assert(question_bytes(questions@.subrange(0, 0)) =~= Seq::empty());
        assert(packet@ =~= header.bytes() + question_bytes(questions@.subrange(0, 0)));
        while i < questions.len()
            invariant
                i <= questions@.len(),
                packet@ == header.bytes() + question_bytes(questions@.subrange(0, i as int)),
            decreases questions@.len() - i,
        {
            let ghost part = questions@.subrange(0, i + 1);
            assert(part.drop_last() =~= questions@.subrange(0, i as int));
            assert(part.last() == questions@[i as int]);
            let ghost before = packet@;
            match &questions[i] {
                DnsQuestion::A(name) => {
                    push_bytes(&mut packet, name.as_slice());
                    packet.push(0);
                    packet.push(1);
                },
                DnsQuestion::Cname(name) => {
                    push_bytes(&mut packet, name.as_slice());
                    packet.push(0);
                    packet.push(5);
                },
            }
            packet.push(0);
            packet.push(1);
            assert(packet@ =~= before + questions@[i as int].bytes());
            assert(packet@ =~= header.bytes() + question_bytes(part));
            i += 1;
        }
        assert(questions@.subrange(0, questions@.len() as int) =~= questions@);
        packet
    }
}

/// A query with its questions.
pub open spec fn query_packet(xid: u16, questions: Seq<DnsQuestion>) -> Seq<u8> {
    (DnsHeader {
        id: swapped(xid),
        flags: swapped(FLAG_RD),
        question_count: swapped((questions.len() % 0x1_0000) as u16),
        answer_count: 0,
        authority_count: 0,
        additional_count: 0,
    }).bytes() + question_bytes(questions)
}

pub open spec fn question_bytes(questions: Seq<DnsQuestion>) -> Seq<u8>
    decreases questions.len(),
{
    if questions.len() == 0 {
        Seq::empty()
    } else {
        question_bytes(questions.drop_last()) + questions.last().bytes()
    }
}

/// What is asked of a name: its address, or the name that it stands for. In a query the
/// name is a run of labels; in what was read it is a text with dots.
#[derive(Debug)]
pub enum DnsQuestion {
    A(Vec<u8>),
    Cname(Vec<u8>),
}

/// A label: its length and its bytes.
pub open spec fn label_bytes(label: Seq<u8>) -> Seq<u8> {
    seq![(label.len() % 256) as u8] + label
}

pub open spec fn labels_bytes(labels: Seq<Seq<u8>>) -> Seq<u8>
    decreases labels.len(),
{
    if labels.len() == 0 {
        Seq::empty()
    } else {
        labels_bytes(labels.drop_last()) + label_bytes(labels.last())
    }
}

/// The labels of a name: the runs between dots.
pub open spec fn labels(name: Seq<u8>) -> Seq<Seq<u8>>
    decreases name.len(),
{
    if name.len() == 0 {
        seq![Seq::empty()]
    } else {
        let rest = labels(name.drop_last());
        if name.last() == 0x2E {
            rest.push(Seq::empty())
        } else {
            rest.drop_last().push(rest.last().push(name.last()))
        }
    }
}

/// A name as it is sent: its labels, and an empty one.
pub open spec fn encoded_name(name: Seq<u8>) -> Seq<u8> {
    labels_bytes(labels(name)).push(0)
}

proof fn lemma_labels(s: Seq<u8>, start: int, i: int)
    requires
        0 <= start <= i <= s.len(),
        start == 0 || s[start - 1] == 0x2E,
        forall|k: int| start <= k < i ==> #[trigger] s[k] != 0x2E,
    ensures
        labels(s.subrange(0, i)) == (if start == 0 {
            seq![s.subrange(start, i)]
        } else {
            labels(s.subrange(0, start - 1)).push(s.subrange(start, i))
        }),
    decreases i,
{
    let t = s.subrange(0, i);
    if i == start {
        assert(s.subrange(start, i) =~= Seq::empty());
        if start > 0 {
            assert(t.drop_last() =~= s.subrange(0, start - 1));
            assert(t.last() == 0x2E);
        }
    } else {
        lemma_labels(s, start, i - 1);
        assert(t.drop_last() =~= s.subrange(0, i - 1));
        assert(t.last() == s[i - 1]);
        let rest = labels(t.drop_last());
        assert(rest.last() == s.subrange(start, i - 1));
        assert(rest.last().push(t.last()) =~= s.subrange(start, i));
        if start == 0 {
            assert(rest.drop_last() =~= Seq::empty());
        } else {
            assert(rest.drop_last() =~= labels(s.subrange(0, start - 1)));
        }
    }
}

proof fn lemma_add_label(s: Seq<u8>, start: int, i: int)
    requires
        0 <= start <= i <= s.len(),
        start == 0 || s[start - 1] == 0x2E,
        forall|k: int| start <= k < i ==> #[trigger] s[k] != 0x2E,
    ensures
        labels_bytes(labels(s.subrange(0, i))) == (if start == 0 {
            Seq::empty()
        } else {
            labels_bytes(labels(s.subrange(0, start - 1)))
        }) + label_bytes(s.subrange(start, i)),
{
    lemma_labels(s, start, i);
    let parts = labels(s.subrange(0, i));
    assert(parts.last() == s.subrange(start, i));
    if start == 0 {
        assert(parts.drop_last() =~= Seq::empty());
        assert(labels_bytes(parts.drop_last()) =~= Seq::empty());
    } else {
        assert(parts.drop_last() =~= labels(s.subrange(0, start - 1)));
    }
}

fn push_label(out: &mut Vec<u8>, label: &[u8])
    ensures
        final(out)@ == old(out)@ + label_bytes(label@),
{
    out.push((label.len() % 256) as u8);
    push_bytes(out, label);
    assert(out@ =~= old(out)@ + label_bytes(label@));
}

impl DnsQuestion {
    pub open spec fn name(&self) -> Seq<u8> {
        match self {
            DnsQuestion::A(name) => name@,
            DnsQuestion::Cname(name) => name@,
        }
    }

    /// The question as it is sent: the name, the type and the class.
    pub open spec fn bytes(&self) -> Seq<u8> {
        self.name() + seq![0u8, if self is A { 1u8 } else { 5u8 }, 0u8, 1u8]
    }

    /// The length of the name with a byte to end it.
    pub fn name_length(&self) -> (r: usize)
        requires
            self.name().len() < usize::MAX,
        ensures
            r == self.name().len() + 1,
    {
        match self {
            DnsQuestion::A(name) => name.len() + 1,
            DnsQuestion::Cname(name) => name.len() + 1,
        }
    }

    /// A question for the address of a name.
    pub fn a_record(name: &[u8]) -> (r: Self)
        ensures
            r is A,
            r.name() == encoded_name(name@),
    {
        let mut out: Vec<u8> = Vec::new();
        let n: usize = name.len();
        let mut start: usize = 0;
        let mut i: usize = 0;
        while i < n
            invariant
                n == name@.len(),
                start <= i <= n,
                start == 0 || name@[start - 1] == 0x2E,
                forall|k: int| start <= k < i ==> #[trigger] name@[k] != 0x2E,
                out@ == (if start == 0 {
                    Seq::empty()
                } else {
                    labels_bytes(labels(name@.subrange(0, start - 1)))
                }),
            decreases n - i,
        {
            if name[i] == 0x2E {
                proof { lemma_add_label(name@, start as int, i as int); }
                push_label(&mut out, vstd::slice::slice_subrange(name, start, i));
                start = i + 1;
            }
            i += 1;
        }
        proof { lemma_add_label(name@, start as int, n as int); }
        push_label(&mut out, vstd::slice::slice_subrange(name, start, n));
        assert(name@.subrange(0, n as int) =~= name@);
        out.push(0);
        DnsQuestion::A(out)
    }
}

/// What a record says of a name.
#[derive(Debug)]
pub enum RecordData {
    A(Ipv4Address),
    Cname(Vec<u8>),
}

/// An answer.
#[derive(Debug)]
pub struct DnsRecord {
    pub name: Vec<u8>,
    pub record_type: u16,
    pub class: u16,
    pub ttl: u32,
    pub record_data: RecordData,
}

/// The same, over sequences.
pub struct RecordModel {
    pub name: Seq<u8>,
    pub record_type: u16,
    pub class: u16,
    pub ttl: u32,
    pub address: Option<Seq<u8>>,
    pub cname: Option<Seq<u8>>,
}

impl View for DnsRecord {
    type V = RecordModel;

    open spec fn view(&self) -> RecordModel {
        RecordModel {
            name: self.name@,
            record_type: self.record_type,
            class: self.class,
            ttl: self.ttl,
            address: match self.record_data {
                RecordData::A(ip) => Some(ip@),
                RecordData::Cname(_) => None,
            },
            cname: match self.record_data {
                RecordData::A(_) => None,
                RecordData::Cname(name) => Some(name@),
            },
        }
    }
}

/// Where a pointer in a name leads, counted from the end of the header. Pointers into
/// the header lead outside every message.
pub open spec fn pointer_target(high: u8, low: u8) -> int {
    let p = (high % 64) * 256 + low;
    if p >= 12 { p - 12 } else { p - 12 + 0x1_0000 }
}

/// One step of reading a name.
pub enum NameStep {
    /// The name ends.
    End,
    /// The name cannot be read. The position moves.
    Fail(int),
    /// A pointer to a position.
    Jump(int),
    /// A label, and the position after it.
    Label(Seq<u8>, int),
}

/// What stands at a position of a name.
pub open spec fn name_step(packet: Seq<u8>, pos: int) -> NameStep {
    if pos >= packet.len() {
        NameStep::Fail(pos)
    } else if packet[pos] == 0 {
        NameStep::End
    } else if packet[pos] >= 0xc0 {
        if pos + 1 >= packet.len() {
            NameStep::Fail(pos + 1)
        } else {
            let target = pointer_target(packet[pos], packet[pos + 1]);
            if target >= packet.len() { NameStep::Fail(target) } else { NameStep::Jump(target) }
        }
    } else if packet[pos] >= 0x40 {
        NameStep::Fail(pos + 1)
    } else if pos + 1 + packet[pos] > packet.len() {
        NameStep::Fail(pos + 1)
    } else {
        NameStep::Label(
            packet.subrange(pos + 1, pos + 1 + packet[pos]),
            pos + 1 + packet[pos],
        )
    }
}

/// The labels read from a position on, and the position after. `back` is where the
/// name goes on after its first pointer. A name that takes over `fuel` steps is none.
pub open spec fn name_from(
    packet: Seq<u8>, pos: int, back: Option<int>, parts: Seq<Seq<u8>>, fuel: nat,
) -> (Option<Seq<Seq<u8>>>, int)
    decreases fuel,
{
    if fuel == 0 {
        (None, pos)
    } else {
        match name_step(packet, pos) {
            NameStep::End => (
                Some(parts),
                match back {
                    Some(b) => b,
                    None => pos + 1,
                },
            ),
            NameStep::Fail(p) => (None, p),
            NameStep::Jump(target) => name_from(
                packet,
                target,
                match back {
                    Some(b) => Some(b),
                    None => Some(pos + 2),
                },
                parts,
                (fuel - 1) as nat,
            ),
            NameStep::Label(label, next) => name_from(
                packet, next, back, parts.push(label), (fuel - 1) as nat,
            ),
        }
    }
}

/// The labels of the name at a position, and the position after it.
pub open spec fn name_at(packet: Seq<u8>, pos: int) -> (Option<Seq<Seq<u8>>>, int) {
    name_from(packet, pos, None, Seq::empty(), packet.len())
}

/// Labels as text, with a dot between each two.
pub open spec fn dotted(parts: Seq<Seq<u8>>) -> Seq<u8>
    decreases parts.len(),
{
    if parts.len() == 0 {
        Seq::empty()
    } else if parts.len() == 1 {
        lossy_utf8(parts[0])
    } else {
        dotted(parts.drop_last()) + seq![0x2Eu8] + lossy_utf8(parts.last())
    }
}

pub open spec fn be16(s: Seq<u8>, at: int) -> u16 {
    (s[at] * 256 + s[at + 1]) as u16
}

pub open spec fn be32(s: Seq<u8>, at: int) -> u32 {
    (s[at] * 0x100_0000 + s[at + 1] * 0x1_0000 + s[at + 2] * 256 + s[at + 3]) as u32
}

/// The question at a position, and the position after.
pub open spec fn question_at(packet: Seq<u8>, pos: int) -> (Option<(bool, Seq<u8>)>, int) {
    let (name, p) = name_at(packet, pos);
    match name {
        None => (None, p),
        Some(parts) => if p + 2 > packet.len() {
            (None, p)
        } else if p + 4 > packet.len() {
            (None, p + 2)
        } else if be16(packet, p + 2) != 1 {
            (None, p + 4)
        } else if be16(packet, p) == 1 {
            (Some((true, dotted(parts))), p + 4)
        } else if be16(packet, p) == 5 {
            (Some((false, dotted(parts))), p + 4)
        } else {
            (None, p + 4)
        },
    }
}

/// The four bytes at a position, as far as they are there, and the position after.
pub open spec fn address_at(packet: Seq<u8>, pos: int) -> (Option<Seq<u8>>, int) {
    if pos + 4 <= packet.len() {
        (Some(packet.subrange(pos, pos + 4)), pos + 4)
    } else if pos <= packet.len() {
        (None, packet.len() as int)
    } else {
        (None, pos)
    }
}

/// The answer at a position, and the position after. An answer that cannot be read may
/// leave the position inside it.
pub open spec fn answer_at(packet: Seq<u8>, pos: int) -> (Option<RecordModel>, int) {
    let (name, p) = name_at(packet, pos);
    match name {
        None => (None, p),
        Some(parts) => if p + 2 > packet.len() {
            (None, p)
        } else if p + 4 > packet.len() {
            (None, p + 2)
        } else if p + 8 > packet.len() {
            (None, p + 4)
        } else if p + 10 > packet.len() {
            (None, p + 8)
        } else {
            let kind = be16(packet, p);
            let class = be16(packet, p + 2);
            let ttl = be32(packet, p + 4);
            let length = be16(packet, p + 8);
            if class != 1 || length == 0 {
                (None, p + 10)
            } else if kind == 1 {
                if length != 4 {
                    (None, p + 10)
                } else {
                    match address_at(packet, p + 10) {
                        (None, q) => (None, q),
                        (Some(ip), q) => (
                            Some(
                                RecordModel {
                                    name: dotted(parts),
                                    record_type: kind,
                                    class,
                                    ttl,
                                    address: Some(ip),
                                    cname: None,
                                },
                            ),
                            q,
                        ),
                    }
                }
            } else if kind == 5 {
                match name_at(packet, p + 10) {
                    (None, q) => (None, q),
                    (Some(target), q) => (
                        Some(
                            RecordModel {
                                name: dotted(parts),
                                record_type: kind,
                                class,
                                ttl,
                                address: None,
                                cname: Some(dotted(target)),
                            },
                        ),
                        q,
                    ),
                }
            } else {
                (None, p + 10)
            }
        },
    }
}

/// A message without its header, and how far it has been read.
pub struct DnsParser<'a> {
    pub packet: &'a [u8],
    pub pos: usize,
}

pub open spec fn record_model(r: Result<DnsRecord, ()>) -> Option<RecordModel> {
    match r {
        Ok(record) => Some(record@),
        Err(_) => None,
    }
}

pub open spec fn question_model(r: Result<DnsQuestion, ()>) -> Option<(bool, Seq<u8>)> {
    match r {
        Ok(q) => Some((q is A, q.name())),
        Err(_) => None,
    }
}

impl<'a> DnsParser<'a> {
    pub fn new(packet: &'a [u8]) -> (r: Self)
        ensures
            r.packet == packet,
            r.pos == 0,
    {
        DnsParser { packet, pos: 0 }
    }

    /// Read a byte. The position moves only over what was read, here and below.
    pub fn read_u8(&mut self) -> (r: Result<u8, ()>)
        ensures
            final(self).packet == old(self).packet,
            r == (if old(self).pos < old(self).packet@.len() {
                Ok(old(self).packet@[old(self).pos as int])
            } else {
                Err(())
            }),
            final(self).pos == old(self).pos + (if r is Ok { 1int } else { 0 }),
    {
        if self.pos >= self.packet.len() {
            return Err(());
        }
        let value: u8 = self.packet[self.pos];
        self.pos += 1;
        Ok(value)
    }

    /// Read two bytes, the high one first.
    pub fn read_u16(&mut self) -> (r: Result<u16, ()>)
        ensures
            final(self).packet == old(self).packet,
            r == (if old(self).pos + 2 <= old(self).packet@.len() {
                Ok(be16(old(self).packet@, old(self).pos as int))
            } else {
                Err(())
            }),
            final(self).pos == old(self).pos + (if r is Ok { 2int } else { 0 }),
    {
        let n: usize = self.packet.len();
        if self.pos >= n || n - self.pos < 2 {
            return Err(());
        }
        let value: u16 = self.packet[self.pos] as u16 * 256 + self.packet[self.pos + 1] as u16;
        self.pos += 2;
        Ok(value)
    }

    /// Read four bytes, the highest first.
    pub fn read_u32(&mut self) -> (r: Result<u32, ()>)
        ensures
            final(self).packet == old(self).packet,
            r == (if old(self).pos + 4 <= old(self).packet@.len() {
                Ok(be32(old(self).packet@, old(self).pos as int))
            } else {
                Err(())
            }),
            final(self).pos == old(self).pos + (if r is Ok { 4int } else { 0 }),
    {
        let n: usize = self.packet.len();
        if self.pos >= n || n - self.pos < 4 {
            return Err(());
        }
        let value: u32 = self.packet[self.pos] as u32 * 0x100_0000 + self.packet[self.pos
            + 1] as u32 * 0x1_0000 + self.packet[self.pos + 2] as u32 * 256 + self.packet[self.pos
            + 3] as u32;
        self.pos += 4;
        Ok(value)
    }

    /// Read some bytes.
    pub fn read_n_bytes(&mut self, n: usize) -> (r: Result<&'a [u8], ()>)
        ensures
            final(self).packet == old(self).packet,
            r is Ok <==> old(self).pos + n <= old(self).packet@.len(),
            r matches Ok(bytes) ==> bytes@ == old(self).packet@.subrange(
                old(self).pos as int, old(self).pos + n,
            ),
            final(self).pos == old(self).pos + (if r is Ok { n as int } else { 0 }),
    {
        let len: usize = self.packet.len();
        if self.pos > len || len - self.pos < n {
            return Err(());
        }
        let bytes: &'a [u8] = vstd::slice::slice_subrange(self.packet, self.pos, self.pos + n);
        self.pos += n;
        Ok(bytes)
    }

    /// Read a name. Pointers are followed; a name whose pointers lead round in a
    /// circle cannot be read.
    pub fn parse_name(&mut self) -> (r: Result<Vec<u8>, ()>)
        ensures
            final(self).packet == old(self).packet,
            ({
                let (name, p) = name_at(old(self).packet@, old(self).pos as int);
                &&& final(self).pos == p
                &&& match name {
                    Some(parts) => r matches Ok(s) && s@ == dotted(parts),
                    None => r is Err,
                }
            }),
    {
        let packet: &'a [u8] = self.packet;
        let n: usize = packet.len();
        let mut name: Vec<u8> = Vec::new();
        let mut first: bool = true;
        let mut back: Option<usize> = None;
        let mut steps: usize = 0;
        let ghost mut parts: Seq<Seq<u8>> = Seq::empty();
        let ghost goal = name_at(packet@, self.pos as int);
        while steps < n
            invariant
                self.packet == packet,
                packet == old(self).packet,
                goal == name_at(old(self).packet@, old(self).pos as int),
                n == packet@.len(),
                steps <= n,
                name@ == dotted(parts),
                first == (parts.len() == 0),
                goal == name_from(
                    packet@,
                    self.pos as int,
                    match back {
                        Some(b) => Some(b as int),
                        None => None,
                    },
                    parts,
                    (n - steps) as nat,
                ),
            decreases n - steps,
        {
            steps += 1;
            let ghost pos0 = self.pos as int;
            let label_len: u8 = match self.read_u8() {
                Ok(b) => b,
                Err(_) => return Err(()),
            };
            if label_len == 0 {
                match back {
                    Some(b) => {
                        self.pos = b;
                    },
                    None => {},
                }
                return Ok(name);
            }
            if label_len >= 0xc0 {
                let low: u8 = match self.read_u8() {
                    Ok(b) => b,
                    Err(_) => return Err(()),
                };
                if back.is_none() {
                    back = Some(self.pos);
                }
                let pointer: usize = (label_len % 64) as usize * 256 + low as usize;
                self.pos = if pointer >= 12 { pointer - 12 } else { pointer + 0x1_0000 - 12 };
                if self.pos >= n {
                    return Err(());
                }
            } else {
                if label_len >= 0x40 {
                    return Err(());
                }
                let label: &'a [u8] = match self.read_n_bytes(label_len as usize) {
                    Ok(bytes) => bytes,
                    Err(_) => return Err(()),
                };
                let ghost before = parts;
                proof {
                    parts = parts.push(label@);
                    assert(parts.drop_last() =~= before);
                }
                let part: Vec<u8> = utf8_lossy(label);
                if !first {
                    name.push(0x2E);
                }
                push_bytes(&mut name, part.as_slice());
                assert(name@ =~= dotted(parts));
                first = false;
            }
        }
        Err(())
    }

    /// Read a question of the class of the internet, for an address or an alias.
    pub fn parse_question(&mut self) -> (r: Result<DnsQuestion, ()>)
        ensures
            final(self).packet == old(self).packet,
            (question_model(r), final(self).pos as int) == question_at(
                old(self).packet@, old(self).pos as int,
            ),
    {
        let name: Vec<u8> = match self.parse_name() {
            Ok(s) => s,
            Err(_) => return Err(()),
        };
        let record_type: u16 = match self.read_u16() {
            Ok(x) => x,
            Err(_) => return Err(()),
        };
        let class: u16 = match self.read_u16() {
            Ok(x) => x,
            Err(_) => return Err(()),
        };
        if class != 1 {
            return Err(());
        }
        if record_type == 1 {
            Ok(DnsQuestion::A(name))
        } else if record_type == 5 {
            Ok(DnsQuestion::Cname(name))
        } else {
            Err(())
        }
    }

    fn read_address(&mut self) -> (r: Result<Ipv4Address, ()>)
        ensures
            final(self).packet == old(self).packet,
            ({
                let (ip, p) = address_at(old(self).packet@, old(self).pos as int);
                &&& final(self).pos == p
                &&& match ip {
                    Some(bytes) => r matches Ok(a) && a@ == bytes,
                    None => r is Err,
                }
            }),
    {
        let a: u8 = match self.read_u8() {
            Ok(x) => x,
            Err(_) => return Err(()),
        };
        let b: u8 = match self.read_u8() {
            Ok(x) => x,
            Err(_) => return Err(()),
        };
        let c: u8 = match self.read_u8() {
            Ok(x) => x,
            Err(_) => return Err(()),
        };
        let d: u8 = match self.read_u8() {
            Ok(x) => x,
            Err(_) => return Err(()),
        };
        let ip: Ipv4Address = Ipv4Address([a, b, c, d]);
        assert(ip@ =~= old(self).packet@.subrange(old(self).pos as int, old(self).pos + 4));
        Ok(ip)
    }

    /// Read an answer of the class of the internet: an address or an alias.
    pub fn parse_answer(&mut self) -> (r: Result<DnsRecord, ()>)
        ensures
            final(self).packet == old(self).packet,
            (record_model(r), final(self).pos as int) == answer_at(
                old(self).packet@, old(self).pos as int,
            ),
    {
        let name: Vec<u8> = match self.parse_name() {
            Ok(s) => s,
            Err(_) => return Err(()),
        };
        let record_type: u16 = match self.read_u16() {
            Ok(x) => x,
            Err(_) => return Err(()),
        };
        let class: u16 = match self.read_u16() {
            Ok(x) => x,
            Err(_) => return Err(()),
        };
        let ttl: u32 = match self.read_u32() {
            Ok(x) => x,
            Err(_) => return Err(()),
        };
        let data_length: u16 = match self.read_u16() {
            Ok(x) => x,
            Err(_) => return Err(()),
        };
        if class != 1 || data_length == 0 {
            return Err(());
        }
        let record_data: RecordData = if record_type == 1 {
            if data_length != 4 {
                return Err(());
            }
            match self.read_address() {
                Ok(ip) => RecordData::A(ip),
                Err(_) => return Err(()),
            }
        } else if record_type == 5 {
            match self.parse_name() {
                Ok(cname) => RecordData::Cname(cname),
                Err(_) => return Err(()),
            }
        } else {
            return Err(());
        };
        Ok(DnsRecord { name, record_type, class, ttl, record_data })
    }
}

/// Addresses by name. A name occurs once.
pub struct DnsCache {
    pub names: Vec<Vec<u8>>,
    pub addresses: Vec<Ipv4Address>,
}

impl DnsCache {
    pub open spec fn wf(&self) -> bool {
        &&& self.names@.len() == self.addresses@.len()
        &&& forall|i: int, j: int|
            0 <= i < self.names@.len() && 0 <= j < self.names@.len() && (#[trigger] self.names@[i])@
                == (#[trigger] self.names@[j])@ ==> i == j
    }

    /// The address of a name.
    pub open spec fn find(&self, name: Seq<u8>) -> Option<Seq<u8>> {
        if exists|i: int| 0 <= i < self.names@.len() && (#[trigger] self.names@[i])@ == name {
            let i = choose|i: int|
                0 <= i < self.names@.len() && (#[trigger] self.names@[i])@ == name;
            Some(self.addresses@[i]@)
        } else {
            None
        }
    }

    /// The names that have an address, with it.
    pub open spec fn known(&self) -> Map<Seq<u8>, Seq<u8>> {
        Map::new(|name: Seq<u8>| self.find(name) is Some, |name: Seq<u8>| self.find(name)->0)
    }

    pub fn new() -> (r: Self)
        ensures
            r.wf(),
            r.known() == Map::<Seq<u8>, Seq<u8>>::empty(),
    {
        let r: DnsCache = DnsCache { names: Vec::new(), addresses: Vec::new() };
        assert(r.known() =~= Map::<Seq<u8>, Seq<u8>>::empty());
        r
    }

    fn position(&self, name: &[u8]) -> (r: Option<usize>)
        requires
            self.wf(),
        ensures
            match r {
                Some(i) => i < self.names@.len() && self.names@[i as int]@ == name@,
                None => forall|i: int|
                    0 <= i < self.names@.len() ==> (#[trigger] self.names@[i])@ != name@,
            },
    {
        let mut i: usize = 0;
        while i < self.names.len()
            invariant
                i <= self.names@.len(),
                forall|k: int| 0 <= k < i ==> (#[trigger] self.names@[k])@ != name@,
            decreases self.names@.len() - i,
        {
            if bytes_equal(self.names[i].as_slice(), name) {
                return Some(i);
            }
            i += 1;
        }
        None
    }

    /// The address of a name, where it is known.
    pub fn lookup_dns(&self, name: &[u8]) -> (r: Option<Ipv4Address>)
        requires
            self.wf(),
        ensures
            match r {
                Some(ip) => self.known().dom().contains(name@) && self.known()[name@] == ip@,
                None => !self.known().dom().contains(name@),
            },
    {
        match self.position(name) {
            Some(i) => {
                assert(self.find(name@) == Some(self.addresses@[i as int]@));
                Some(self.addresses[i])
            },
            None => None,
        }
    }

    /// Remember the address of a name. What was known of it before is forgotten.
    pub fn add_dns_cache(&mut self, name: Vec<u8>, address: Ipv4Address)
        requires
            old(self).wf(),
        ensures
            final(self).wf(),
            final(self).known() == old(self).known().insert(name@, address@),
    {
        let ghost before = *self;
        let ghost key = name@;
        match self.position(name.as_slice()) {
            Some(i) => {
                self.addresses.set(i, address);
                assert(self.names == before.names);
                assert forall|k: Seq<u8>| #[trigger] self.find(k) == (if k == key {
                    Some(address@)
                } else {
                    before.find(k)
                }) by {
                    if k == key {
                        assert(self.names@[i as int]@ == key);
                    }
                }
            },
            None => {
                let ghost n = self.names@.len() as int;
                self.names.push(name);
                self.addresses.push(address);
                assert(self.names@[n]@ == key);
                assert forall|k: int| 0 <= k < n implies #[trigger] self.names@[k]
                    == before.names@[k] by {}
                assert forall|k: Seq<u8>| #[trigger] self.find(k) == (if k == key {
                    Some(address@)
                } else {
                    before.find(k)
                }) by {
                    if k == key {
                        assert(self.names@[n]@ == k);
                    } else if exists|i: int|
                        0 <= i < n && (#[trigger] before.names@[i])@ == k {
                        let i = choose|i: int| 0 <= i < n && (#[trigger] before.names@[i])@ == k;
                        assert(self.names@[i]@ == k);
                    } else {
                        assert forall|i: int| 0 <= i <= n implies (#[trigger] self.names@[i])@
                            != k by {
                            if i < n {
                                assert(before.names@[i]@ != k);
                            }
                        }
                    }
                }
            },
        }
        assert(self.known() =~= before.known().insert(key, address@));
    }

    /// Take what an answer says. Err where the message is no answer.
    pub fn handle_dns_packet(&mut self, packet: &[u8]) -> (r: Result<(), ()>)
        requires
            old(self).wf(),
        ensures
            final(self).wf(),
            r is Ok <==> is_answer(packet@),
            final(self).known() == (if is_answer(packet@) {
                learned(packet@, old(self).known())
            } else {
                old(self).known()
            }),
    {
        let header: DnsHeader = match DnsHeader::try_from_u8_buffer(packet) {
            Some(h) => h,
            None => return Err(()),
        };
        if !header.is_response() {
            return Err(());
        }
        if header.answer_count == 0 {
            return Err(());
        }
        let ghost body = packet@.skip(HEADER_SIZE as int);
        let rest: &[u8] = vstd::slice::slice_subrange(packet, HEADER_SIZE, packet.len());
        assert(rest@ =~= body);
        let mut parser: DnsParser = DnsParser::new(rest);
        let question_count: u16 = swap_bytes(header.question_count);
        let answer_count: u16 = swap_bytes(header.answer_count);
        let ghost goal = after_questions(body, 0, question_count as nat);
        let mut i: u16 = 0;
        while i < question_count
            invariant
                i <= question_count,
                parser.packet@ == body,
                goal == after_questions(body, parser.pos as int, (question_count - i) as nat),
            decreases question_count - i,
        {
            let _ = parser.parse_question();
            i += 1;
        }
        let ghost known = self.known();
        let ghost end = learned_from(body, parser.pos as int, answer_count as nat, known);
        let mut j: u16 = 0;
        while j < answer_count
            invariant
                j <= answer_count,
                self.wf(),
                parser.packet@ == body,
                end == learned_from(
                    body, parser.pos as int, (answer_count - j) as nat, self.known(),
                ),
            decreases answer_count - j,
        {
            let record: Result<DnsRecord, ()> = parser.parse_answer();
            j += 1;
            match record {
                Ok(r) => match r.record_data {
                    RecordData::A(ip) => {
                        self.add_dns_cache(r.name, ip);
                    },
                    RecordData::Cname(_) => {},
                },
                Err(_) => {},
            }
        }
        Ok(())
    }
}

/// A message whose header says that it answers something.
pub open spec fn is_answer(packet: Seq<u8>) -> bool {
    packet.len() >= HEADER_SIZE && DnsHeader::of(packet).flags & FLAG_RESPONSE != 0
        && DnsHeader::of(packet).answer_count != 0
}

/// The position after a number of questions.
pub open spec fn after_questions(body: Seq<u8>, pos: int, count: nat) -> int
    decreases count,
{
    if count == 0 {
        pos
    } else {
        after_questions(body, question_at(body, pos).1, (count - 1) as nat)
    }
}

/// What is known after a number of answers: their addresses, the last for each name.
pub open spec fn learned_from(
    body: Seq<u8>, pos: int, count: nat, known: Map<Seq<u8>, Seq<u8>>,
) -> Map<Seq<u8>, Seq<u8>>
    decreases count,
{
    if count == 0 {
        known
    } else {
        let (record, next) = answer_at(body, pos);
        let more = match record {
            Some(r) => match r.address {
                Some(ip) => known.insert(r.name, ip),
                None => known,
            },
            None => known,
        };
        learned_from(body, next, (count - 1) as nat, more)
    }
}

/// What is known after an answer.
pub open spec fn learned(packet: Seq<u8>, known: Map<Seq<u8>, Seq<u8>>) -> Map<Seq<u8>, Seq<u8>> {
    let header = DnsHeader::of(packet);
    let body = packet.skip(HEADER_SIZE as int);
    learned_from(
        body,
        after_questions(body, 0, swapped(header.question_count) as nat),
        swapped(header.answer_count) as nat,
        known,
    )
}

/// The port that answers come to: 0 until there is one.
pub struct DnsPort {
    pub port: u16,
}

impl DnsPort {
    /// The port, which is `fresh` the first time.
    pub fn get_dns_port(&mut self, fresh: u16) -> (r: u16)
        ensures
            r == (if old(self).port == 0 { fresh } else { old(self).port }),
            final(self).port == r,
    {
        if self.port == 0 {
            self.port = fresh;
        }
        self.port
    }
}

/// The position after a step that goes on.
spec fn step_to(packet: Seq<u8>, pos: int) -> Option<int> {
    match name_step(packet, pos) {
        NameStep::Jump(target) => Some(target),
        NameStep::Label(_, next) => Some(next),
        _ => None,
    }
}

/// The name at a position ends after exactly `n` steps.
spec fn ends_in(packet: Seq<u8>, pos: int, n: nat) -> bool
    decreases n,
{
    if n == 0 {
        false
    } else if n == 1 {
        name_step(packet, pos) is End
    } else {
        match step_to(packet, pos) {
            Some(next) => ends_in(packet, next, (n - 1) as nat),
            None => false,
        }
    }
}

proof fn lemma_ends_once(packet: Seq<u8>, pos: int, n: nat, m: nat)
    requires
        ends_in(packet, pos, n),
        ends_in(packet, pos, m),
    ensures
        n == m,
    decreases n,
{
    if n > 1 && m > 1 {
        lemma_ends_once(packet, step_to(packet, pos)->0, (n - 1) as nat, (m - 1) as nat);
    }
}

proof fn lemma_name_ends(
    packet: Seq<u8>, pos: int, back: Option<int>, parts: Seq<Seq<u8>>, fuel: nat,
) -> (n: nat)
    requires
        name_from(packet, pos, back, parts, fuel).0 is Some,
    ensures
        1 <= n <= fuel,
        ends_in(packet, pos, n),
    decreases fuel,
{
    match name_step(packet, pos) {
        NameStep::Jump(target) => {
            let b = match back {
                Some(b) => Some(b),
                None => Some(pos + 2),
            };
            lemma_name_ends(packet, target, b, parts, (fuel - 1) as nat) + 1
        },
        NameStep::Label(label, next) => {
            lemma_name_ends(packet, next, back, parts.push(label), (fuel - 1) as nat) + 1
        },
        _ => 1,
    }
}

proof fn lemma_fuel(
    packet: Seq<u8>, pos: int, back: Option<int>, parts: Seq<Seq<u8>>, n: nat, f: nat, g: nat,
)
    requires
        ends_in(packet, pos, n),
        n <= f,
        n <= g,
    ensures
        name_from(packet, pos, back, parts, f) == name_from(packet, pos, back, parts, g),
    decreases n,
{
    match name_step(packet, pos) {
        NameStep::Jump(target) => {
            let b = match back {
                Some(b) => Some(b),
                None => Some(pos + 2),
            };
            lemma_fuel(packet, target, b, parts, (n - 1) as nat, (f - 1) as nat, (g - 1) as nat);
        },
        NameStep::Label(label, next) => {
            lemma_fuel(
                packet, next, back, parts.push(label), (n - 1) as nat, (f - 1) as nat,
                (g - 1) as nat,
            );
        },
        _ => {},
    }
}

/// The positions that a name goes through: all different, all in the message.
proof fn lemma_trace(packet: Seq<u8>, pos: int, n: nat) -> (t: Seq<int>)
    requires
        ends_in(packet, pos, n),
        pos >= 0,
    ensures
        t.len() == n,
        t.no_duplicates(),
        forall|i: int| 0 <= i < n ==> 0 <= #[trigger] t[i] < packet.len() && ends_in(
            packet, t[i], (n - i) as nat,
        ),
    decreases n,
{
    if n == 1 {
        seq![pos]
    } else {
        let rest = lemma_trace(packet, step_to(packet, pos)->0, (n - 1) as nat);
        let t = seq![pos] + rest;
        assert forall|i: int| 0 <= i < n implies 0 <= #[trigger] t[i] < packet.len() && ends_in(
            packet, t[i], (n - i) as nat,
        ) by {
            if i > 0 {
                assert(t[i] == rest[i - 1]);
            }
        }
        assert forall|i: int, j: int| 0 <= i < n && 0 <= j < n && i != j implies t[i] != t[j] by {
            if t[i] == t[j] {
                lemma_ends_once(packet, t[i], (n - i) as nat, (n - j) as nat);
            }
        }
        t
    }
}

/// Only names whose pointers lead round in a circle are refused for their length: a
/// name that ends, after however many steps, is read.
pub proof fn names_that_end_are_read(packet: Seq<u8>, pos: int, fuel: nat)
    requires
        pos >= 0,
        name_from(packet, pos, None, Seq::empty(), fuel).0 is Some,
    ensures
        name_at(packet, pos) == name_from(packet, pos, None, Seq::empty(), fuel),
{
    let n = lemma_name_ends(packet, pos, None, Seq::empty(), fuel);
    let t = lemma_trace(packet, pos, n);
    let range = vstd::set_lib::set_int_range(0, packet.len() as int);
    vstd::set_lib::lemma_int_range(0, packet.len() as int);
    t.unique_seq_to_set();
    assert(t.to_set().subset_of(range)) by {
        assert forall|x: int| t.to_set().contains(x) implies range.contains(x) by {
            let i = choose|i: int| 0 <= i < t.len() && t[i] == x;
            assert(0 <= t[i] < packet.len());
        }
    }
    vstd::set_lib::lemma_len_subset(t.to_set(), range);
    lemma_fuel(packet, pos, None, Seq::empty(), n, packet.len(), fuel);
}

/// Labels of which none is empty or over 63 bytes long.
pub open spec fn good_labels(ls: Seq<Seq<u8>>) -> bool {
    forall|i: int| 0 <= i < ls.len() ==> 1 <= (#[trigger] ls[i]).len() <= 63
}

proof fn lemma_labels_front(ls: Seq<Seq<u8>>)
    requires
        ls.len() > 0,
    ensures
        labels_bytes(ls) == label_bytes(ls[0]) + labels_bytes(ls.skip(1)),
    decreases ls.len(),
{
    if ls.len() == 1 {
        assert(ls.drop_last() =~= Seq::empty());
        assert(ls.skip(1) =~= Seq::empty());
        assert(labels_bytes(ls.drop_last()) =~= Seq::empty());
        assert(labels_bytes(ls.skip(1)) =~= Seq::empty());
        assert(labels_bytes(ls) =~= label_bytes(ls[0]));
        assert(label_bytes(ls[0]) + labels_bytes(ls.skip(1)) =~= label_bytes(ls[0]));
    } else {
        lemma_labels_front(ls.drop_last());
        assert(ls.drop_last().skip(1) =~= ls.skip(1).drop_last());
        assert(ls.drop_last()[0] == ls[0]);
        assert(ls.skip(1).last() == ls.last());
        assert(labels_bytes(ls) =~= label_bytes(ls[0]) + labels_bytes(ls.skip(1)));
    }
}

proof fn lemma_read_labels(
    packet: Seq<u8>, pos: int, parts: Seq<Seq<u8>>, ls: Seq<Seq<u8>>, fuel: nat,
)
    requires
        good_labels(ls),
        0 <= pos,
        pos + labels_bytes(ls).len() < packet.len(),
        packet.subrange(pos, pos + labels_bytes(ls).len()) == labels_bytes(ls),
        packet[pos + labels_bytes(ls).len()] == 0,
        fuel > ls.len(),
    ensures
        name_from(packet, pos, None, parts, fuel) == (
            Some(parts + ls), pos + labels_bytes(ls).len() + 1,
        ),
    decreases ls.len(),
{
    let bytes = labels_bytes(ls);
    if ls.len() == 0 {
        assert(bytes =~= Seq::empty());
        assert(parts + ls =~= parts);
    } else {
        lemma_labels_front(ls);
        let label = ls[0];
        let rest = labels_bytes(ls.skip(1));
        let n = label.len() as int;
        let next = pos + 1 + n;
        let seen = packet.subrange(pos, pos + bytes.len());
        assert(seen[0] == packet[pos]);
        assert(packet[pos] == n);
        assert forall|k: int| 0 <= k < n implies packet[pos + 1 + k] == label[k] by {
            assert(seen[1 + k] == packet[pos + 1 + k]);
        }
        assert(packet.subrange(pos + 1, next) =~= label);
        assert(packet.subrange(next, next + rest.len()) =~= rest) by {
            assert forall|k: int| 0 <= k < rest.len() implies packet[next + k] == rest[k] by {
                assert(seen[1 + n + k] == packet[next + k]);
            }
        }
        assert forall|i: int| 0 <= i < ls.skip(1).len() implies 1 <= (#[trigger] ls.skip(
            1,
        )[i]).len() <= 63 by {
            assert(ls.skip(1)[i] == ls[i + 1]);
        }
        lemma_read_labels(packet, next, parts.push(label), ls.skip(1), (fuel - 1) as nat);
        assert(parts.push(label) + ls.skip(1) =~= parts + ls);
        assert(name_step(packet, pos) == NameStep::Label(label, next));
    }
}

proof fn lemma_labels_len(ls: Seq<Seq<u8>>)
    ensures
        labels_bytes(ls).len() >= ls.len(),
    decreases ls.len(),
{
    if ls.len() > 0 {
        lemma_labels_len(ls.drop_last());
    }
}

/// A name that was written anywhere in a message is read back, label by label, where
/// no label is empty or over 63 bytes long.
pub proof fn name_round_trip(before: Seq<u8>, name: Seq<u8>, after: Seq<u8>)
    requires
        good_labels(labels(name)),
    ensures
        name_at(before + encoded_name(name) + after, before.len() as int) == (
            Some(labels(name)), (before.len() + encoded_name(name).len()) as int,
        ),
{
    let packet = before + encoded_name(name) + after;
    let pos = before.len() as int;
    let bytes = labels_bytes(labels(name));
    lemma_labels_len(labels(name));
    assert(packet.subrange(pos, pos + bytes.len()) =~= bytes);
    assert(packet[pos + bytes.len()] == 0);
    lemma_read_labels(packet, pos, Seq::empty(), labels(name), packet.len());
    assert(Seq::<Seq<u8>>::empty() + labels(name) =~= labels(name));
}

/// A question for an address is read back from a query: it asks for an address, of the
/// name that was asked for.
pub proof fn question_round_trip(name: Seq<u8>, question: DnsQuestion, after: Seq<u8>)
    requires
        good_labels(labels(name)),
        question is A,
        question.name() == encoded_name(name),
    ensures
        question_at(question.bytes() + after, 0) == (
            Some((true, dotted(labels(name)))), question.bytes().len() as int,
        ),
{
    let body = question.bytes() + after;
    let tail = seq![0u8, 1u8, 0u8, 1u8] + after;
    name_round_trip(Seq::empty(), name, tail);
    assert(Seq::<u8>::empty() + encoded_name(name) + tail =~= body);
    let p = encoded_name(name).len() as int;
    assert(body[p] == 0 && body[p + 1] == 1 && body[p + 2] == 0 && body[p + 3] == 1);
}

/// Swapping the bytes of a field twice gives the field back, and its two bytes hold
/// all of it.
pub proof fn field_round_trip(x: u16)
    ensures
        swapped(swapped(x)) == x,
        field_at(field_bytes(x), 0) == x,
{
}

} // verus!

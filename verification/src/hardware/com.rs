//! The driver of the serial ports: files on them, and reads that wait for data.
use std::collections::{BTreeMap, VecDeque};

use vstd::prelude::*;

use crate::api::io::{DriverCommand, IoError, IoResult, Message};

verus! {

/// The ports that share interrupt 4.
pub open spec fn irq4_ports() -> Seq<usize> {
    seq![0usize, 2]
}

/// The ports that share interrupt 3.
pub open spec fn irq3_ports() -> Seq<usize> {
    seq![1usize, 3]
}

/// The ports that an interrupt may be for.
pub fn ports_of_irq(irq: u8) -> (r: Vec<usize>)
    ensures
        r@ == (if irq == 4 {
            irq4_ports()
        } else if irq == 3 {
            irq3_ports()
        } else {
            Seq::empty()
        }),
{
    let mut r: Vec<usize> = Vec::new();
    if irq == 4 {
        r.push(0);
        r.push(2);
        assert(r@ =~= irq4_ports());
    } else if irq == 3 {
        r.push(1);
        r.push(3);
        assert(r@ =~= irq3_ports());
    } else {
        assert(r@ =~= Seq::empty());
    }
    r
}

/// Whether a port exists that needs interrupt 3.
pub fn needs_irq3(com2: bool, com4: bool) -> (r: bool)
    ensures
        r == (com2 || com4),
{
    com2 || com4
}

/// The name of the device of a port.
pub fn device_name(index: usize) -> (r: &'static str)
    requires
        index < 4,
    ensures
        r@ == (if index == 0 {
            "COM1"@
        } else if index == 1 {
            "COM2"@
        } else if index == 2 {
            "COM3"@
        } else {
            "COM4"@
        }),
{
    if index == 0 {
        "COM1"
    } else if index == 1 {
        "COM2"
    } else if index == 2 {
        "COM3"
    } else {
        "COM4"
    }
}

/// A read that waits for data at a port.
#[derive(Clone, Copy, PartialEq, Eq, Structural, Debug)]
pub struct PendingRead {
    pub port_index: usize,
    pub request_id: u32,
    pub buffer_ptr: u32,
    pub buffer_len: u32,
}

/// A read that is over: its data goes to its buffer, and their number to who asked.
pub struct CompletedRead {
    pub request_id: u32,
    pub buffer_ptr: u32,
    pub data: Vec<u8>,
}

/// The same, over sequences.
pub struct CompletedModel {
    pub port_index: usize,
    pub request_id: u32,
    pub buffer_ptr: u32,
    pub data: Seq<u8>,
}

/// How many bytes a read gets.
pub open spec fn got(read: PendingRead, input: Seq<u8>) -> int {
    if read.buffer_len < input.len() { read.buffer_len as int } else { input.len() as int }
}

/// What becomes of the reads that wait, of the bytes at each port, and which reads are
/// over. Reads come in order; one at a port in `ports` is over as soon as it gets any
/// byte.
pub open spec fn served(
    reads: Seq<PendingRead>, inputs: Seq<Seq<u8>>, ports: Seq<usize>,
) -> (Seq<PendingRead>, Seq<Seq<u8>>, Seq<CompletedModel>)
    decreases reads.len(),
{
    if reads.len() == 0 {
        (Seq::empty(), inputs, Seq::empty())
    } else {
        let read = reads[0];
        let p = read.port_index as int;
        let n = got(read, inputs[p]);
        if ports.contains(read.port_index) && n > 0 {
            let (kept, left, done) = served(
                reads.skip(1), inputs.update(p, inputs[p].skip(n)), ports,
            );
            (
                kept,
                left,
                seq![
                    CompletedModel {
                        port_index: read.port_index,
                        request_id: read.request_id,
                        buffer_ptr: read.buffer_ptr,
                        data: inputs[p].subrange(0, n),
                    },
                ] + done,
            )
        } else {
            let (kept, left, done) = served(reads.skip(1), inputs, ports);
            (seq![read] + kept, left, done)
        }
    }
}

pub open spec fn inputs_model(inputs: Seq<Vec<u8>>) -> Seq<Seq<u8>> {
    Seq::new(inputs.len(), |i: int| inputs[i]@)
}

/// A list of reads that are over agrees with its model.
pub open spec fn completed_as(v: Seq<CompletedRead>, m: Seq<CompletedModel>) -> bool {
    v.len() == m.len() && forall|i: int|
        0 <= i < v.len() ==> (#[trigger] v[i]).request_id == m[i].request_id && v[i].buffer_ptr
            == m[i].buffer_ptr && v[i].data@ == m[i].data
}

/// What is done about a request.
pub enum ComReply {
    /// Answer.
    Done(IoResult),
    /// Send the data of the request to a port, and answer with its length.
    Send { port_index: usize, buffer_ptr: u32, buffer_len: u32 },
    /// A read waits. Reads at its port are to be served.
    Waiting { port_index: usize },
}

/// The files on the ports, and the reads that wait.
pub struct ComDeviceDriver {
    pub next_instance: u32,
    pub open_instances: BTreeMap<u32, usize>,
    pub read_list: VecDeque<PendingRead>,
}

fn contains(ports: &[usize], p: usize) -> (r: bool)
    ensures
        r == ports@.contains(p),
{
    let mut i: usize = 0;
    while i < ports.len()
        invariant
            i <= ports@.len(),
            forall|k: int| 0 <= k < i ==> ports@[k] != p,
        decreases ports@.len() - i,
    {
        if ports[i] == p {
            assert(ports@[i as int] == p);
            return true;
        }
        i += 1;
    }
    false
}

/// What the driver knows: the port of each open file, the next file, and the reads that wait.
pub struct ComModel {
    pub open: Map<u32, usize>,
    pub next: u32,
    pub reads: Seq<PendingRead>,
}

/// The answer to a request, and what the driver knows after it.
pub open spec fn answered(m: ComModel, command: DriverCommand, id: u32, args: Seq<u32>) -> (
    ComModel,
    ComReply,
) {
    let known = m.open.dom().contains(args[0]);
    let port = m.open[args[0]];
    match command {
        DriverCommand::OpenRaw => (
            ComModel {
                open: m.open.insert(m.next, args[0] as usize),
                next: ((m.next + 1) % 0x1_0000_0000) as u32,
                ..m
            },
            ComReply::Done(Ok(m.next)),
        ),
        DriverCommand::Read if known => (
            ComModel {
                reads: m.reads.push(
                    PendingRead {
                        port_index: port,
                        request_id: id,
                        buffer_ptr: args[1],
                        buffer_len: args[2],
                    },
                ),
                ..m
            },
            ComReply::Waiting { port_index: port },
        ),
        DriverCommand::Write if known => (
            m,
            ComReply::Send { port_index: port, buffer_ptr: args[1], buffer_len: args[2] },
        ),
        DriverCommand::Read => (m, ComReply::Done(Err(IoError::FileHandleInvalid))),
        DriverCommand::Write => (m, ComReply::Done(Err(IoError::FileHandleInvalid))),
        _ => (m, ComReply::Done(Err(IoError::UnsupportedOperation))),
    }
}

impl ComDeviceDriver {
    pub open spec fn model(&self) -> ComModel {
        ComModel {
            open: self.open_instances@,
            next: self.next_instance,
            reads: self.read_list@,
        }
    }

    /// Files and reads are on one of the four ports.
    pub open spec fn wf(&self) -> bool {
        &&& forall|k: u32| #[trigger]
            self.open_instances@.dom().contains(k) ==> self.open_instances@[k] < 4
        &&& forall|i: int|
            0 <= i < self.read_list@.len() ==> (#[trigger] self.read_list@[i]).port_index < 4
    }

    pub fn new() -> (r: Self)
        ensures
            r.wf(),
            r.next_instance == 1,
            r.open_instances@ == Map::<u32, usize>::empty(),
            r.read_list@ == Seq::<PendingRead>::empty(),
    {
        ComDeviceDriver {
            next_instance: 1,
            open_instances: BTreeMap::new(),
            read_list: VecDeque::new(),
        }
    }

    /// Serve a request: open a file on a port, read from it or write to it.
    pub fn handle_request(&mut self, command: DriverCommand, message: &Message) -> (r: ComReply)
        requires
            old(self).wf(),
            command == DriverCommand::OpenRaw ==> message.args@[0] < 4,
        ensures
            final(self).wf(),
            (final(self).model(), r) == answered(
                old(self).model(), command, message.unique_id, message.args@,
            ),
            ({
                let file = message.args@[0];
                let open = old(self).open_instances@.dom().contains(file);
                let port = old(self).open_instances@[file];
                match command {
                    DriverCommand::OpenRaw => {
                        &&& r == ComReply::Done(Ok(old(self).next_instance))
                        &&& final(self).open_instances@ == old(self).open_instances@.insert(
                            old(self).next_instance, message.args@[0] as usize,
                        )
                        &&& final(self).next_instance == (old(self).next_instance + 1)
                            % 0x1_0000_0000
                        &&& final(self).read_list == old(self).read_list
                    },
                    DriverCommand::Read => if open {
                        &&& r == (ComReply::Waiting { port_index: port })
                        &&& final(self).read_list@ == old(self).read_list@.push(
                            PendingRead {
                                port_index: port,
                                request_id: message.unique_id,
                                buffer_ptr: message.args@[1],
                                buffer_len: message.args@[2],
                            },
                        )
                        &&& final(self).open_instances == old(self).open_instances
                        &&& final(self).next_instance == old(self).next_instance
                    } else {
                        &&& r == ComReply::Done(Err(IoError::FileHandleInvalid))
                        &&& *final(self) == *old(self)
                    },
                    DriverCommand::Write => {
                        &&& *final(self) == *old(self)
                        &&& r == (if open {
                            ComReply::Send {
                                port_index: port,
                                buffer_ptr: message.args@[1],
                                buffer_len: message.args@[2],
                            }
                        } else {
                            ComReply::Done(Err(IoError::FileHandleInvalid))
                        })
                    },
                    _ => {
                        &&& r == ComReply::Done(Err(IoError::UnsupportedOperation))
                        &&& *final(self) == *old(self)
                    },
                }
            }),
    {
        match command {
            DriverCommand::OpenRaw => {
                let port_index: usize = message.args[0] as usize;
                let instance: u32 = self.next_instance;
                self.next_instance = self.next_instance.wrapping_add(1);
                self.open_instances.insert(instance, port_index);
                ComReply::Done(Ok(instance))
            },
            DriverCommand::Read => {
                let instance: u32 = message.args[0];
                let port_index: usize = match self.open_instances.get(&instance) {
                    Some(p) => *p,
                    None => return ComReply::Done(Err(IoError::FileHandleInvalid)),
                };
                self.read_list.push_back(
                    PendingRead {
                        port_index,
                        request_id: message.unique_id,
                        buffer_ptr: message.args[1],
                        buffer_len: message.args[2],
                    },
                );
                ComReply::Waiting { port_index }
            },
            DriverCommand::Write => {
                let instance: u32 = message.args[0];
                match self.open_instances.get(&instance) {
                    Some(p) => ComReply::Send {
                        port_index: *p,
                        buffer_ptr: message.args[1],
                        buffer_len: message.args[2],
                    },
                    None => ComReply::Done(Err(IoError::FileHandleInvalid)),
                }
            },
            _ => ComReply::Done(Err(IoError::UnsupportedOperation)),
        }
    }

    /// Hand the bytes that arrived at some ports to the reads that wait there. A read
    /// need not be filled to be over.
    pub fn try_complete_reads(&mut self, ports: &[usize], inputs: &mut Vec<Vec<u8>>) -> (r: Vec<
        CompletedRead,
    >)
        requires
            old(self).wf(),
            old(inputs)@.len() == 4,
        ensures
            final(self).wf(),
            final(inputs)@.len() == 4,
            final(self).open_instances == old(self).open_instances,
            final(self).next_instance == old(self).next_instance,
            ({
                let (kept, left, done) = served(
                    old(self).read_list@, inputs_model(old(inputs)@), ports@,
                );
                &&& final(self).read_list@ == kept
                &&& inputs_model(final(inputs)@) == left
                &&& completed_as(r@, done)
            }),
    {
        let ghost goal = served(self.read_list@, inputs_model(inputs@), ports@);
        let ghost mut done: Seq<CompletedModel> = Seq::empty();
        let mut kept: VecDeque<PendingRead> = VecDeque::new();
        let mut out: Vec<CompletedRead> = Vec::new();
        proof {
            let rest = goal;
            assert(kept@ + rest.0 =~= rest.0);
            assert(done + rest.2 =~= rest.2);
        }
        while self.read_list.len() > 0
            invariant
                inputs@.len() == 4,
                goal == served(old(self).read_list@, inputs_model(old(inputs)@), ports@),
                self.wf(),
                self.open_instances == old(self).open_instances,
                self.next_instance == old(self).next_instance,
                forall|i: int| 0 <= i < kept@.len() ==> (#[trigger] kept@[i]).port_index < 4,
                completed_as(out@, done),
                ({
                    let rest = served(self.read_list@, inputs_model(inputs@), ports@);
                    goal.0 == kept@ + rest.0 && goal.1 == rest.1 && goal.2 == done + rest.2
                }),
            decreases self.read_list@.len(),
        {
            let ghost reads = self.read_list@;
            let ghost ins = inputs_model(inputs@);
            let ghost rest = served(reads, ins, ports@);
            let ghost kept0 = kept@;
            let ghost done0 = done;
            match self.read_list.pop_front() {
                None => {},
                Some(read) => {
                    assert(self.read_list@ =~= reads.skip(1));
                    assert(read == reads[0]);
                    assert forall|i: int| 0 <= i < self.read_list@.len() implies (
                    #[trigger] self.read_list@[i]).port_index < 4 by {
                        assert(self.read_list@[i] == reads[i + 1]);
                    }
                    let p: usize = read.port_index;
                    let have: usize = inputs[p].len();
                    let n: usize = if (read.buffer_len as usize) < have {
                        read.buffer_len as usize
                    } else {
                        have
                    };
                    assert(n == got(read, ins[p as int]));
                    if contains(ports, p) && n > 0 {
                        let data: Vec<u8> = crate::text::sub_bytes(inputs[p].as_slice(), 0, n);
                        let left: Vec<u8> = crate::text::sub_bytes(inputs[p].as_slice(), n, have);
                        assert(left@ =~= ins[p as int].skip(n as int));
                        inputs.set(p, left);
                        assert(inputs_model(inputs@) =~= ins.update(
                            p as int, ins[p as int].skip(n as int),
                        ));
                        let ghost model = CompletedModel {
                            port_index: p,
                            request_id: read.request_id,
                            buffer_ptr: read.buffer_ptr,
                            data: data@,
                        };
                        out.push(
                            CompletedRead {
                                request_id: read.request_id,
                                buffer_ptr: read.buffer_ptr,
                                data,
                            },
                        );
                        proof {
                            done = done.push(model);
                            let tail = served(self.read_list@, inputs_model(inputs@), ports@);
                            assert(rest.2 == seq![model] + tail.2);
                            assert(done0 + rest.2 =~= done + tail.2);
                        }
                    } else {
                        kept.push_back(read);
                        proof {
                            let tail = served(self.read_list@, inputs_model(inputs@), ports@);
                            assert(rest.0 == seq![read] + tail.0);
                            assert(kept0 + rest.0 =~= kept@ + tail.0);
                        }
                    }
                },
            }
        }
        proof {
            let rest = served(self.read_list@, inputs_model(inputs@), ports@);
            assert(rest.0 =~= Seq::empty());
            assert(rest.2 =~= Seq::empty());
            assert(goal.0 =~= kept@);
            assert(goal.2 =~= done);
        }
        self.read_list = kept;
        out
    }
}

/// The bytes that completed reads took from a port, in order.
pub open spec fn taken_from(done: Seq<CompletedModel>, port: int) -> Seq<u8>
    decreases done.len(),
{
    if done.len() == 0 {
        Seq::empty()
    } else if done[0].port_index == port {
        done[0].data + taken_from(done.skip(1), port)
    } else {
        taken_from(done.skip(1), port)
    }
}

/// No byte is lost, doubled or moved: at every port, what the reads took, in their
/// order, and what is left are the bytes that had arrived.
pub proof fn reads_keep_all_bytes(
    reads: Seq<PendingRead>, inputs: Seq<Seq<u8>>, ports: Seq<usize>, port: int,
)
    requires
        0 <= port < inputs.len(),
        forall|i: int| 0 <= i < reads.len() ==> (#[trigger] reads[i]).port_index < inputs.len(),
    ensures
        ({
            let (kept, left, done) = served(reads, inputs, ports);
            left.len() == inputs.len() && taken_from(done, port) + left[port] == inputs[port]
        }),
    decreases reads.len(),
{
    let (kept, left, done) = served(reads, inputs, ports);
    if reads.len() == 0 {
        assert(Seq::<u8>::empty() + inputs[port] =~= inputs[port]);
    } else {
        let read = reads[0];
        let p = read.port_index as int;
        let n = got(read, inputs[p]);
        assert forall|i: int| 0 <= i < reads.skip(1).len() implies (#[trigger] reads.skip(
            1,
        )[i]).port_index < inputs.len() by {
            assert(reads.skip(1)[i] == reads[i + 1]);
        }
        if ports.contains(read.port_index) && n > 0 {
            let next = inputs.update(p, inputs[p].skip(n));
            reads_keep_all_bytes(reads.skip(1), next, ports, port);
            let tail = served(reads.skip(1), next, ports).2;
            assert(done.skip(1) =~= tail);
            if p == port {
                assert(done[0].data + inputs[port].skip(n) =~= inputs[port]);
                assert(done[0].data + taken_from(tail, port) + left[port] =~= done[0].data + (
                taken_from(tail, port) + left[port]));
            }
        } else {
            reads_keep_all_bytes(reads.skip(1), inputs, ports, port);
        }
    }
}

/// A file that was opened leads to its port: what is written to it is sent there, and reads wait for
/// what comes from there, the newest last. A file that is not open is told as such.
pub proof fn files_lead_to_their_port(m: ComModel, port: usize, id: u32, args: Seq<u32>, other: u32)
    requires
        port < 4,
        args.len() == 6,
        args[0] == m.next,
        other != m.next,
    ensures
        ({
            let opening = args.update(0, port as u32);
            let (opened, reply) = answered(m, DriverCommand::OpenRaw, id, opening);
            let (read, waits) = answered(opened, DriverCommand::Read, id, args);
            let (_, sent) = answered(opened, DriverCommand::Write, id, args);
            &&& reply == ComReply::Done(Ok(m.next))
            &&& sent == (ComReply::Send { port_index: port, buffer_ptr: args[1], buffer_len: args[2] })
            &&& waits == (ComReply::Waiting { port_index: port })
            &&& read.reads.len() == m.reads.len() + 1
            &&& read.reads.last() == (PendingRead {
                port_index: port,
                request_id: id,
                buffer_ptr: args[1],
                buffer_len: args[2],
            })
            &&& opened.open.dom().contains(other) == m.open.dom().contains(other)
        }),
        !m.open.dom().contains(m.next) ==> answered(m, DriverCommand::Write, id, args) == (
            m,
            ComReply::Done(Err(IoError::FileHandleInvalid)),
        ) && answered(m, DriverCommand::Read, id, args) == (
            m,
            ComReply::Done(Err(IoError::FileHandleInvalid)),
        ),
{
}

/// The first and the third port share a line, and the second and the fourth another.
pub proof fn ports_share_lines(port: usize)
    requires
        port < 4,
    ensures
        irq4_ports().contains(port) == (port == 0 || port == 2),
        irq3_ports().contains(port) == (port == 1 || port == 3),
{
    assert(irq4_ports()[0] == 0 && irq4_ports()[1] == 2);
    assert(irq3_ports()[0] == 1 && irq3_ports()[1] == 3);
}

} // verus!

//! Operations that wait for a message or for the end of a task.
use std::collections::VecDeque;

use vstd::prelude::*;

use crate::api::io::{IoResult, Message};
use crate::task::state::TaskID;

verus! {

/// The size of a message in memory.
pub const MESSAGE_SIZE: u32 = 32;

/// An operation that waits: its number, and the place in memory for its result.
#[derive(Clone, Copy, PartialEq, Eq, Structural, Debug)]
pub struct PendingOp {
    pub id: u32,
    pub address: u32,
}

/// A message and who sent it.
#[derive(Clone, Copy, Debug)]
pub struct MessagePacket {
    pub sender: TaskID,
    pub message: Message,
}

/// A message that was handed to an operation: it is copied to the operation's place,
/// and the operation is completed with the sender.
#[derive(Clone, Copy, Debug)]
pub struct Delivered {
    pub op: PendingOp,
    pub packet: MessagePacket,
}

/// An operation that is over, and its result.
#[derive(Clone, Copy, PartialEq, Eq, Structural, Debug)]
pub struct CompletedOp {
    pub id: u32,
    pub value: u32,
}

/// The result of an operation in one word: the top bit marks errors.
pub open spec fn result_word(result: Result<u32, u32>) -> u32 {
    match result {
        Ok(value) => value & 0x7fff_ffff,
        Err(code) => code | 0x8000_0000,
    }
}

/// The result of an operation in one word, errors by their code.
pub fn encode_result(result: Result<u32, u32>) -> (r: u32)
    ensures
        r == result_word(result),
{
    match result {
        Ok(value) => value & 0x7fff_ffff,
        Err(code) => code | 0x8000_0000,
    }
}

/// A place for a message lies in one page.
pub open spec fn in_one_page(address: u32) -> bool {
    address + MESSAGE_SIZE <= u32::MAX && address / 0x1000 == (address + MESSAGE_SIZE) / 0x1000
}

/// What becomes of messages and of the operations that wait for them: what is handed over, which
/// operations still wait, and which messages stay.
pub open spec fn handed_over(ops: Seq<PendingOp>, packets: Seq<MessagePacket>) -> (
    Seq<Delivered>,
    Seq<PendingOp>,
    Seq<MessagePacket>,
) {
    let n = if ops.len() < packets.len() { ops.len() } else { packets.len() };
    (
        Seq::new(n, |i: int| Delivered { op: ops[i], packet: packets[i] }),
        ops.skip(n as int),
        if ops.len() == 0 { packets } else { Seq::empty() },
    )
}

/// The numbers of operations grow.
pub open spec fn ids_grow(ops: Seq<PendingOp>, next_id: u32) -> bool {
    &&& forall|i: int, j: int|
        0 <= i < j < ops.len() ==> (#[trigger] ops[i]).id < (#[trigger] ops[j]).id
    &&& forall|i: int| 0 <= i < ops.len() ==> (#[trigger] ops[i]).id < next_id
}

/// Reads of messages that wait for a task, the oldest first.
pub struct MessageIOProvider {
    pub task_id: TaskID,
    pub next_id: u32,
    pub pending_ops: VecDeque<PendingOp>,
}

impl MessageIOProvider {
    pub open spec fn wf(&self) -> bool {
        ids_grow(self.pending_ops@, self.next_id)
    }

    pub fn for_task(task_id: TaskID) -> (r: Self)
        ensures
            r.wf(),
            r.task_id == task_id,
            r.next_id == 1,
            r.pending_ops@ == Seq::<PendingOp>::empty(),
    {
        MessageIOProvider { task_id, next_id: 1, pending_ops: VecDeque::new() }
    }

    /// Read a message to a place in memory. Where one is there, it is handed over at
    /// once; else the operation waits.
    pub fn add_op(&mut self, address: u32, messages: &mut VecDeque<MessagePacket>) -> (r: (
        u32,
        Option<Delivered>,
    ))
        requires
            old(self).wf(),
            old(self).next_id < u32::MAX,
            in_one_page(address),
        ensures
            final(self).wf(),
            final(self).task_id == old(self).task_id,
            final(self).next_id == old(self).next_id + 1,
            r.0 == old(self).next_id,
            ({
                let op = PendingOp { id: r.0, address };
                if old(messages)@.len() > 0 {
                    &&& r.1 == Some(Delivered { op, packet: old(messages)@[0] })
                    &&& final(messages)@ == old(messages)@.skip(1)
                    &&& final(self).pending_ops@ == old(self).pending_ops@
                } else {
                    &&& r.1 is None
                    &&& final(messages)@ == old(messages)@
                    &&& final(self).pending_ops@ == old(self).pending_ops@.push(op)
                }
            }),
    {
        let id: u32 = self.next_id;
        self.next_id = self.next_id + 1;
        let op: PendingOp = PendingOp { id, address };
        match messages.pop_front() {
            Some(packet) => {
                assert(messages@ =~= old(messages)@.skip(1));
                (id, Some(Delivered { op, packet }))
            },
            None => {
                self.pending_ops.push_back(op);
                (id, None)
            },
        }
    }

    /// Messages arrived: each goes to the oldest operation that waits. Where none waits,
    /// the messages stay; once one does, all are taken, and those for which no operation
    /// is left are dropped.
    pub fn check_messages(&mut self, messages: &mut VecDeque<MessagePacket>) -> (r: Vec<Delivered>)
        requires
            old(self).wf(),
        ensures
            final(self).wf(),
            final(self).task_id == old(self).task_id,
            final(self).next_id == old(self).next_id,
            ({
                let ops = old(self).pending_ops@;
                let packets = old(messages)@;
                let n = if ops.len() < packets.len() { ops.len() } else { packets.len() };
                &&& r@ == Seq::new(n, |i: int| Delivered { op: ops[i], packet: packets[i] })
                &&& final(self).pending_ops@ == ops.skip(n as int)
                &&& final(messages)@ == (if ops.len() == 0 { packets } else { Seq::empty() })
            }),
            (r@, final(self).pending_ops@, final(messages)@) == handed_over(
                old(self).pending_ops@, old(messages)@,
            ),
    {
        let mut out: Vec<Delivered> = Vec::new();
        let ghost ops = self.pending_ops@;
        let ghost packets = messages@;
        if self.pending_ops.len() == 0 {
            assert(self.pending_ops@ =~= ops.skip(0));
            assert(out@ =~= Seq::new(0, |i: int| Delivered { op: ops[i], packet: packets[i] }));
            return out;
        }
        let mut seen: Ghost<int> = Ghost(0);
        assert(ops.skip(0) =~= ops);
        assert(packets.skip(0) =~= packets);
        while messages.len() > 0
            invariant
                ops == old(self).pending_ops@,
                packets == old(messages)@,
                0 <= seen@ <= packets.len(),
                messages@ == packets.skip(seen@),
                out@.len() == (if ops.len() < seen@ { ops.len() as int } else { seen@ }),
                self.pending_ops@ == ops.skip(out@.len() as int),
                self.task_id == old(self).task_id,
                self.next_id == old(self).next_id,
                forall|i: int|
                    0 <= i < out@.len() ==> #[trigger] out@[i] == (Delivered {
                        op: ops[i],
                        packet: packets[i],
                    }),
            decreases messages@.len(),
        {
            match messages.pop_front() {
                Some(packet) => {
                    assert(packet == packets[seen@]);
                    assert(messages@ =~= packets.skip(seen@ + 1));
                    let ghost k = out@.len() as int;
                    match self.pending_ops.pop_front() {
                        Some(op) => {
                            assert(op == ops[k]);
                            assert(self.pending_ops@ =~= ops.skip(k + 1));
                            out.push(Delivered { op, packet });
                        },
                        None => {},
                    }
                    proof { seen@ = seen@ + 1; }
                },
                None => {},
            }
        }
        assert(messages@ =~= Seq::empty());
        proof {
            let n = out@.len();
            assert(out@ =~= Seq::new(n, |i: int| Delivered { op: ops[i], packet: packets[i] }));
            assert forall|i: int, j: int|
                0 <= i < j < self.pending_ops@.len() implies (#[trigger] self.pending_ops@[i]).id < (
            #[trigger] self.pending_ops@[j]).id by {
                assert(self.pending_ops@[i] == ops[i + n]);
                assert(self.pending_ops@[j] == ops[j + n]);
            }
            assert forall|i: int| 0 <= i < self.pending_ops@.len() implies (
            #[trigger] self.pending_ops@[i]).id < self.next_id by {
                assert(self.pending_ops@[i] == ops[i + n]);
            }
        }
        out
    }

    /// The page and the place in it that a message is copied to.
    pub fn copy_message(address: u32) -> (r: (u32, u32))
        ensures
            r.0 == address - address % 0x1000,
            r.1 == address % 0x1000,
    {
        (address - address % 0x1000, address % 0x1000)
    }
}

/// Reads that wait for a task to end.
pub struct TaskIOProvider {
    pub child_id: TaskID,
    pub exit_code: Option<u32>,
    pub next_id: u32,
    pub pending_ops: VecDeque<u32>,
}

impl TaskIOProvider {
    pub fn for_task(id: TaskID) -> (r: Self)
        ensures
            r.child_id == id,
            r.exit_code is None,
            r.next_id == 1,
            r.pending_ops@ == Seq::<u32>::empty(),
    {
        TaskIOProvider { child_id: id, exit_code: None, next_id: 1, pending_ops: VecDeque::new() }
    }

    pub fn matches_task(&self, id: TaskID) -> (r: bool)
        ensures
            r == (self.child_id == id),
    {
        self.child_id.0 == id.0
    }

    /// The task ended: every read that waits is over with its code, and so will be
    /// every later one.
    pub fn task_exited(&mut self, code: u32) -> (r: Vec<CompletedOp>)
        ensures
            final(self).exit_code == Some(code),
            final(self).pending_ops@ == Seq::<u32>::empty(),
            final(self).child_id == old(self).child_id,
            final(self).next_id == old(self).next_id,
            r@ == Seq::new(
                old(self).pending_ops@.len(),
                |i: int|
                    CompletedOp {
                        id: old(self).pending_ops@[i],
                        value: result_word(Ok(code)),
                    },
            ),
    {
        self.exit_code = Some(code);
        let value: u32 = encode_result(Ok(code));
        let mut out: Vec<CompletedOp> = Vec::new();
        let ghost ops = self.pending_ops@;
        assert(ops.skip(0) =~= ops);
        while self.pending_ops.len() > 0
            invariant
                ops == old(self).pending_ops@,
                value == result_word(Ok(code)),
                self.exit_code == Some(code),
                self.child_id == old(self).child_id,
                self.next_id == old(self).next_id,
                out@.len() <= ops.len(),
                self.pending_ops@ == ops.skip(out@.len() as int),
                forall|i: int|
                    0 <= i < out@.len() ==> #[trigger] out@[i] == (CompletedOp {
                        id: ops[i],
                        value,
                    }),
            decreases self.pending_ops@.len(),
        {
            let ghost k = out@.len() as int;
            match self.pending_ops.pop_front() {
                Some(id) => {
                    assert(id == ops[k]);
                    out.push(CompletedOp { id, value });
                    assert(self.pending_ops@ =~= ops.skip(k + 1));
                },
                None => {},
            }
        }
        assert(self.pending_ops@ =~= Seq::<u32>::empty());
        assert(out@ =~= Seq::new(ops.len(), |i: int| CompletedOp { id: ops[i], value }));
        out
    }

    /// Read the code with which the task ends. Where it has ended, the read is over at
    /// once.
    pub fn add_read(&mut self) -> (r: (u32, Option<CompletedOp>))
        requires
            old(self).next_id < u32::MAX,
        ensures
            r.0 == old(self).next_id,
            final(self).next_id == old(self).next_id + 1,
            final(self).child_id == old(self).child_id,
            final(self).exit_code == old(self).exit_code,
            match old(self).exit_code {
                Some(code) => r.1 == Some(CompletedOp { id: r.0, value: result_word(Ok(code)) })
                    && final(self).pending_ops@ == old(self).pending_ops@,
                None => r.1 is None && final(self).pending_ops@ == old(self).pending_ops@.push(
                    r.0,
                ),
            },
    {
        let id: u32 = self.next_id;
        self.next_id = self.next_id + 1;
        match self.exit_code {
            Some(code) => (id, Some(CompletedOp { id, value: encode_result(Ok(code)) })),
            None => {
                self.pending_ops.push_back(id);
                (id, None)
            },
        }
    }

    /// Close the file: nothing is left to do.
    pub fn close(&self) -> (r: IoResult)
        ensures
            r == IoResult::Ok(0u32),
    {
        Ok(0)
    }
}

/// Messages are handed over in the order in which they came, to reads in the order in
/// which those came: no message overtakes another.
pub proof fn messages_keep_their_order(
    ops: Seq<PendingOp>, next_id: u32, packets: Seq<MessagePacket>, n: nat, i: int, j: int,
)
    requires
        ids_grow(ops, next_id),
        n <= ops.len(),
        n <= packets.len(),
        0 <= i < j < n,
    ensures
        ({
            let out = Seq::new(n, |k: int| Delivered { op: ops[k], packet: packets[k] });
            out[i].op.id < out[j].op.id && out[i].packet == packets[i] && out[j].packet
                == packets[j]
        }),
{
}

/// Each message goes to the operation that has waited longest, the first to the first. No operation
/// is lost, and none gets two messages. Where none waits, all messages stay.
pub proof fn messages_go_to_those_who_wait(
    ops: Seq<PendingOp>, packets: Seq<MessagePacket>, i: int,
)
    requires
        0 <= i < ops.len(),
    ensures
        ({
            let (out, waiting, left) = handed_over(ops, packets);
            &&& out.len() + waiting.len() == ops.len()
            &&& i < out.len() ==> out[i].op == ops[i] && out[i].packet == packets[i]
            &&& i >= out.len() ==> waiting[i - out.len()] == ops[i]
            &&& waiting.len() > 0 ==> out.len() == packets.len()
        }),
        handed_over(Seq::empty(), packets).2 == packets,
        handed_over(Seq::empty(), packets).0.len() == 0,
{
}

/// A result tells success by its top bit, and keeps the value.
pub proof fn results_tell_success_from_failure(value: u32, code: u32)
    requires
        value < 0x8000_0000,
        code < 0x8000_0000,
    ensures
        result_word(Ok(value)) == value,
        result_word(Err(code)) == code + 0x8000_0000,
{
    assert(value & 0x7fff_ffff == value) by (bit_vector)
        requires
            value < 0x8000_0000,
    ;
    assert(code | 0x8000_0000 == code + 0x8000_0000) by (bit_vector)
        requires
            code < 0x8000_0000,
    ;
}

} // verus!

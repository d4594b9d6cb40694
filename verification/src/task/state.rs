//! A task: what state it is in, and its kernel stack.
use vstd::prelude::*;

use crate::api::io::IoResult;
use crate::bits::{byte0, byte1, byte2, byte3, bytes_round_trip, u32_bytes, u32_of};
use crate::text::sub_bytes;
use crate::time::system::Timestamp;

verus! {

#[derive(Clone, Copy, PartialEq, Eq, Structural, Debug)]
pub struct TaskID(pub u32);

/// The registers of the floating-point unit, in the form in which the processor saves
/// them.
pub struct FxState {
    pub data: [u8; 512],
}

/// The registers at the start: all exceptions are masked and precision is extended.
pub open spec fn initial_fx() -> Seq<u8> {
    Seq::new(
        512,
        |i: int|
            if i == 0 {
                0x7Fu8
            } else if i == 1 {
                0x03
            } else if i == 24 {
                0x80
            } else if i == 25 {
                0x1F
            } else {
                0
            },
    )
}

impl FxState {
    /// All exceptions are masked and precision is extended.
    pub fn new() -> (r: Self)
        ensures
            r.data@ == initial_fx(),
    {
        let mut data: [u8; 512] = [0u8; 512];
        data[0] = 0x7F;
        data[1] = 0x03;
        data[24] = 0x80;
        data[25] = 0x1F;
        assert(data@ =~= initial_fx());
        FxState { data }
    }
}

/// Why a task waits.
#[derive(Clone, Copy, PartialEq, Eq, Structural, Debug)]
pub enum BlockType {
    /// For time to pass.
    Sleep,
    /// For a word in memory to be signalled.
    Futex,
    /// For a file to be mapped.
    FileMapping,
}

/// What a task is doing.
#[derive(Clone, Copy, PartialEq, Eq, Structural, Debug)]
pub enum RunState {
    /// Created, with nothing to run yet.
    Uninitialized,
    /// Ready to run for the first time.
    Initialized,
    /// Can run.
    Running,
    /// Over.
    Terminated,
    /// Waits, at most for some milliseconds where a limit is given.
    Blocked(Option<u32>, BlockType),
}

impl RunState {
    pub open spec fn label_text(&self) -> Seq<char> {
        match self {
            RunState::Uninitialized => "Uninit"@,
            RunState::Initialized => "Init"@,
            RunState::Running => "Run"@,
            RunState::Terminated => "Term"@,
            RunState::Blocked(_, BlockType::Sleep) => "Sleep"@,
            RunState::Blocked(_, BlockType::Futex) => "FutexWait"@,
            RunState::Blocked(_, BlockType::FileMapping) => "FileMapWait"@,
        }
    }

    /// A short name for the state.
    pub fn label(&self) -> (r: &'static str)
        ensures
            r@ == self.label_text(),
    {
        match self {
            RunState::Uninitialized => "Uninit",
            RunState::Initialized => "Init",
            RunState::Running => "Run",
            RunState::Terminated => "Term",
            RunState::Blocked(_, BlockType::Sleep) => "Sleep",
            RunState::Blocked(_, BlockType::Futex) => "FutexWait",
            RunState::Blocked(_, BlockType::FileMapping) => "FileMapWait",
        }
    }

    /// Whether the scheduler may run a task in this state.
    pub open spec fn resumable(&self) -> bool {
        *self == RunState::Initialized || *self == RunState::Running
    }
}

/// A task. Its kernel stack begins at an address and grows down to it.
pub struct Task {
    pub id: TaskID,
    pub parent_id: TaskID,
    pub state: RunState,
    pub created_at: Timestamp,
    pub stack: Vec<u8>,
    pub stack_start: u32,
    pub stack_pointer: u32,
    pub page_directory: u32,
    pub filename: Vec<u8>,
    pub args: Vec<Vec<u8>>,
    pub last_map_result: Option<IoResult>,
    pub vm86_irq_mask: u32,
    pub fpu_state: FxState,
}

/// The state after some time: one that waits runs once its limit is over, and else has
/// less time left.
pub open spec fn after_time(state: RunState, ms: u32) -> RunState {
    match state {
        RunState::Blocked(Some(t), why) => if t <= ms {
            RunState::Running
        } else {
            RunState::Blocked(Some((t - ms) as u32), why)
        },
        _ => state,
    }
}

/// Whether the limit of a wait is over after some time.
pub open spec fn times_out(state: RunState, ms: u32) -> bool {
    state matches RunState::Blocked(Some(t), _) && t <= ms
}

/// Bytes with the four of a number at a position, the low one first.
pub open spec fn put32(s: Seq<u8>, at: int, value: u32) -> Seq<u8> {
    s.update(at, byte0(value)).update(at + 1, byte1(value)).update(at + 2, byte2(value)).update(
        at + 3, byte3(value),
    )
}

/// Bytes with `n` zeros from `at` on.
pub open spec fn zeroed(s: Seq<u8>, at: int, n: int) -> Seq<u8> {
    Seq::new(s.len(), |i: int| if at <= i < at + n { 0u8 } else { s[i] })
}

/// The number in the four bytes at a position.
pub open spec fn get32(s: Seq<u8>, at: int) -> u32 {
    u32_of(s[at], s[at + 1], s[at + 2], s[at + 3])
}

impl Task {
    /// The stack pointer lies in the stack, or at its top.
    pub open spec fn wf(&self) -> bool {
        self.stack_start + self.stack@.len() <= u32::MAX && self.stack_start <= self.stack_pointer
            <= self.stack_start + self.stack@.len()
    }

    /// How many bytes can still be pushed.
    pub open spec fn room(&self) -> int {
        self.stack_pointer - self.stack_start
    }

    /// A task with nothing to run. The stack pointer leaves one word at the top free.
    pub fn new(id: TaskID, parent_id: TaskID, stack: Vec<u8>, stack_start: u32, now: Timestamp)
        -> (r: Self)
        requires
            stack@.len() >= 4,
            stack_start + stack@.len() <= u32::MAX,
        ensures
            r.wf(),
            r.id == id,
            r.parent_id == parent_id,
            r.state == RunState::Uninitialized,
            r.created_at == now,
            r.stack == stack,
            r.stack_start == stack_start,
            r.stack_pointer == stack_start + stack@.len() - 4,
            r.page_directory == 0,
            r.filename@.len() == 0,
            r.args@.len() == 0,
            r.last_map_result is None,
            r.vm86_irq_mask == 0,
            r.fpu_state.data@ == initial_fx(),
    {
        let stack_pointer: u32 = stack_start + stack.len() as u32 - 4;
        Task {
            id,
            parent_id,
            state: RunState::Uninitialized,
            created_at: now,
            stack,
            stack_start,
            stack_pointer,
            page_directory: 0,
            filename: Vec::new(),
            args: Vec::new(),
            last_map_result: None,
            vm86_irq_mask: 0,
            fpu_state: FxState::new(),
        }
    }

    /// The first task, which runs where no other can.
    pub fn create_initial_task(stack: Vec<u8>, stack_start: u32, now: Timestamp) -> (r: Self)
        requires
            stack@.len() >= 4,
            stack_start + stack@.len() <= u32::MAX,
        ensures
            r.wf(),
            r.id == TaskID(0),
            r.parent_id == TaskID(0),
            r.state == RunState::Running,
            r.filename@ == crate::text::text("IDLE"),
            r.stack == stack,
            r.stack_start == stack_start,
            r.stack_pointer == stack_start + stack@.len() - 4,
            r.created_at == now,
            r.page_directory == 0,
            r.args@.len() == 0,
            r.last_map_result is None,
            r.vm86_irq_mask == 0,
            r.fpu_state.data@ == initial_fx(),
    {
        let mut task: Task = Self::new(TaskID(0), TaskID(0), stack, stack_start, now);
        task.state = RunState::Running;
        crate::text::push_text(&mut task.filename, "IDLE");
        assert(task.filename@ =~= crate::text::text("IDLE"));
        task
    }

    /// The address above the stack.
    pub fn get_stack_top(&self) -> (r: u32)
        requires
            self.wf(),
        ensures
            r == self.stack_start + self.stack@.len(),
    {
        self.stack_start + self.stack.len() as u32
    }

    /// Empty the stack.
    pub fn reset_stack_pointer(&mut self)
        requires
            old(self).wf(),
        ensures
            final(self).wf(),
            final(self).stack_pointer == old(self).stack_start + old(self).stack@.len(),
            final(self).stack == old(self).stack,
            *final(self) == (Task {
                stack: final(self).stack,
                stack_pointer: final(self).stack_pointer,
                ..*old(self)
            }),
    {
        self.stack_pointer = self.get_stack_top();
    }

    /// Push a byte.
    pub fn stack_push_u8(&mut self, value: u8)
        requires
            old(self).wf(),
            old(self).room() >= 1,
        ensures
            final(self).wf(),
            *final(self) == (Task {
                stack: final(self).stack,
                stack_pointer: final(self).stack_pointer,
                ..*old(self)
            }),
            final(self).stack_pointer == old(self).stack_pointer - 1,
            final(self).stack@ == old(self).stack@.update(old(self).room() - 1, value),
    {
        self.stack_pointer = self.stack_pointer - 1;
        let offset: usize = (self.stack_pointer - self.stack_start) as usize;
        self.stack.set(offset, value);
    }

    /// Push a word, its low byte at the lowest address.
    pub fn stack_push_u32(&mut self, value: u32)
        requires
            old(self).wf(),
            old(self).room() >= 4,
        ensures
            final(self).wf(),
            *final(self) == (Task {
                stack: final(self).stack,
                stack_pointer: final(self).stack_pointer,
                ..*old(self)
            }),
            final(self).stack_pointer == old(self).stack_pointer - 4,
            final(self).stack@ == put32(old(self).stack@, old(self).room() - 4, value),
    {
        self.stack_pointer = self.stack_pointer - 4;
        let offset: usize = (self.stack_pointer - self.stack_start) as usize;
        let (a, b, c, d): (u8, u8, u8, u8) = u32_bytes(value);
        self.stack.set(offset, a);
        self.stack.set(offset + 1, b);
        self.stack.set(offset + 2, c);
        self.stack.set(offset + 3, d);
    }

    /// Push zero for each of the seven registers that a task starts with.
    pub fn initialize_registers(&mut self)
        requires
            old(self).wf(),
            old(self).room() >= 28,
        ensures
            final(self).wf(),
            *final(self) == (Task {
                stack: final(self).stack,
                stack_pointer: final(self).stack_pointer,
                ..*old(self)
            }),
            final(self).stack_pointer == old(self).stack_pointer - 28,
            final(self).stack@ == zeroed(old(self).stack@, old(self).room() - 28, 28),
    {
        self.stack_push_u32(0);
        self.stack_push_u32(0);
        self.stack_push_u32(0);
        self.stack_push_u32(0);
        self.stack_push_u32(0);
        self.stack_push_u32(0);
        self.stack_push_u32(0);
        assert(byte0(0) == 0 && byte1(0) == 0 && byte2(0) == 0 && byte3(0) == 0);
        assert(self.stack@ =~= zeroed(old(self).stack@, old(self).room() - 28, 28));
    }

    /// Set where the task begins: below its registers lies the address that it returns
    /// to.
    pub fn set_entry_point(&mut self, address: u32)
        requires
            old(self).wf(),
            old(self).room() >= 32,
        ensures
            final(self).wf(),
            *final(self) == (Task {
                stack: final(self).stack,
                stack_pointer: final(self).stack_pointer,
                ..*old(self)
            }),
            final(self).stack_pointer == old(self).stack_pointer - 32,
            final(self).stack@ == put32(
                zeroed(old(self).stack@, old(self).room() - 28, 28), old(self).room() - 32, address,
            ),
            get32(final(self).stack@, final(self).room()) == address,
    {
        self.initialize_registers();
        self.stack_push_u32(address);
        proof { bytes_round_trip(address, 0, 0, 0, 0); }
    }

    /// Whether the scheduler may run the task.
    pub fn can_resume(&self) -> (r: bool)
        ensures
            r == self.state.resumable(),
    {
        match self.state {
            RunState::Initialized => true,
            RunState::Running => true,
            _ => false,
        }
    }

    /// A task with something to run is ready.
    pub fn make_runnable(&mut self)
        ensures
            final(self).state == (if old(self).state == RunState::Uninitialized {
                RunState::Initialized
            } else {
                old(self).state
            }),
            *final(self) == (Task { state: final(self).state, ..*old(self) }),
    {
        match self.state {
            RunState::Uninitialized => {
                self.state = RunState::Initialized;
            },
            _ => {},
        }
    }

    pub fn set_filename(&mut self, name: &[u8])
        ensures
            final(self).filename@ == name@,
            *final(self) == (Task { filename: final(self).filename, ..*old(self) }),
    {
        self.filename = sub_bytes(name, 0, name.len());
        assert(self.filename@ =~= name@);
    }

    /// End the task.
    pub fn terminate(&mut self)
        ensures
            final(self).state == RunState::Terminated,
            *final(self) == (Task { state: final(self).state, ..*old(self) }),
    {
        self.state = RunState::Terminated;
    }

    pub fn is_terminated(&self) -> (r: bool)
        ensures
            r == (self.state == RunState::Terminated),
    {
        match self.state {
            RunState::Terminated => true,
            _ => false,
        }
    }

    /// Time has passed. True where a wait is over for that.
    pub fn update_timeout(&mut self, ms: u32) -> (r: bool)
        ensures
            r == times_out(old(self).state, ms),
            final(self).state == after_time(old(self).state, ms),
            *final(self) == (Task { state: final(self).state, ..*old(self) }),
    {
        match self.state {
            RunState::Blocked(Some(t), why) => {
                if t <= ms {
                    self.state = RunState::Running;
                    return true;
                }
                self.state = RunState::Blocked(Some(t - ms), why);
            },
            _ => {},
        }
        false
    }

    /// Wait for some time.
    pub fn sleep(&mut self, timeout_ms: u32)
        requires
            old(self).state == RunState::Running,
        ensures
            final(self).state == RunState::Blocked(Some(timeout_ms), BlockType::Sleep),
            *final(self) == (Task { state: final(self).state, ..*old(self) }),
    {
        self.state = RunState::Blocked(Some(timeout_ms), BlockType::Sleep);
    }

    /// Wait for a signal.
    pub fn futex_wait(&mut self, timeout: Option<u32>)
        ensures
            final(self).state == RunState::Blocked(timeout, BlockType::Futex),
            *final(self) == (Task { state: final(self).state, ..*old(self) }),
    {
        self.state = RunState::Blocked(timeout, BlockType::Futex);
    }

    /// The signal came. Other waits go on.
    pub fn futex_wake(&mut self)
        ensures
            final(self).state == (match old(self).state {
                RunState::Blocked(_, BlockType::Futex) => RunState::Running,
                other => other,
            }),
            *final(self) == (Task { state: final(self).state, ..*old(self) }),
    {
        match self.state {
            RunState::Blocked(_, BlockType::Futex) => {
                self.state = RunState::Running;
            },
            _ => {},
        }
    }

    /// Wait for a file to be mapped.
    pub fn begin_file_mapping_request(&mut self)
        ensures
            *final(self) == (Task {
                state: final(self).state,
                last_map_result: final(self).last_map_result,
                ..*old(self)
            }),
            old(self).state == RunState::Running ==> final(self).state == RunState::Blocked(
                None, BlockType::FileMapping,
            ) && final(self).last_map_result is None,
            old(self).state != RunState::Running ==> final(self).state == old(self).state && final(self).last_map_result == old(self).last_map_result,
    {
        match self.state {
            RunState::Running => {
                self.state = RunState::Blocked(None, BlockType::FileMapping);
                self.last_map_result = None;
            },
            _ => {},
        }
    }

    /// The file was mapped, or could not be. False where the task does not wait for it.
    pub fn resolve_file_mapping_request(&mut self, result: IoResult) -> (r: bool)
        ensures
            *final(self) == (Task {
                state: final(self).state,
                last_map_result: final(self).last_map_result,
                ..*old(self)
            }),
            r == (old(self).state matches RunState::Blocked(_, BlockType::FileMapping)),
            r ==> final(self).state == RunState::Running && final(self).last_map_result == Some(
                result,
            ),
            !r ==> final(self).state == old(self).state && final(self).last_map_result == old(
                self,
            ).last_map_result,
    {
        match self.state {
            RunState::Blocked(_, BlockType::FileMapping) => {
                self.state = RunState::Running;
                self.last_map_result = Some(result);
                true
            },
            _ => false,
        }
    }

    pub open spec fn arg_list(&self) -> Seq<Seq<u8>> {
        Seq::new(self.args@.len(), |i: int| self.args@[i]@)
    }

    /// Add an argument for the program.
    pub fn push_arg(&mut self, arg: &[u8])
        ensures
            final(self).arg_list() == old(self).arg_list().push(arg@),
            *final(self) == (Task { args: final(self).args, ..*old(self) }),
    {
        let bytes: Vec<u8> = sub_bytes(arg, 0, arg.len());
        assert(bytes@ =~= arg@);
        self.args.push(bytes);
        assert(self.arg_list() =~= old(self).arg_list().push(arg@));
    }

    /// Add arguments for the program, in order.
    pub fn push_args(&mut self, args: &Vec<Vec<u8>>)
        ensures
            final(self).arg_list() == old(self).arg_list() + Seq::new(
                args@.len(),
                |i: int| args@[i]@,
            ),
            *final(self) == (Task { args: final(self).args, ..*old(self) }),
    {
        let mut i: usize = 0;
        let ghost more = Seq::new(args@.len(), |i: int| args@[i]@);
        while i < args.len()
            invariant
                i <= args@.len(),
                more == Seq::new(args@.len(), |i: int| args@[i]@),
                self.arg_list() =~= old(self).arg_list() + more.subrange(0, i as int),
                *self == (Task { args: self.args, ..*old(self) }),
            decreases args@.len() - i,
        {
            self.push_arg(args[i].as_slice());
            i += 1;
        }
        assert(more.subrange(0, args@.len() as int) =~= more);
    }

    /// No task has a program yet.
    pub fn has_executable(&self) -> (r: bool)
        ensures
            !r,
    {
        false
    }
}

/// Two spans of time are as one of both: a wait that lasts through the first ends with
/// the second exactly where it would end with both together.
pub proof fn waits_add_up(state: RunState, a: u32, b: u32)
    requires
        a + b <= u32::MAX,
        !times_out(state, a),
    ensures
        after_time(after_time(state, a), b) == after_time(state, (a + b) as u32),
        times_out(after_time(state, a), b) == times_out(state, (a + b) as u32),
{
}

/// A wait without a limit is never over for time alone.
pub proof fn unlimited_waits_stay(why: BlockType, ms: u32)
    ensures
        !times_out(RunState::Blocked(None, why), ms),
        after_time(RunState::Blocked(None, why), ms) == RunState::Blocked(None, why),
{
}

/// A word that was pushed is found at the stack pointer, and what lay on the stack is
/// unchanged.
pub proof fn pushed_words_are_found(stack: Seq<u8>, room: int, value: u32, i: int)
    requires
        4 <= room <= stack.len(),
        room <= i < stack.len(),
    ensures
        get32(put32(stack, room - 4, value), room - 4) == value,
        put32(stack, room - 4, value)[i] == stack[i],
{
    bytes_round_trip(value, 0, 0, 0, 0);
}

} // verus!

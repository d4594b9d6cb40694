//! The lines by which devices interrupt: who listens, and what is done.
use vstd::prelude::*;

use crate::api::compat::VM86_IRQ_TIMER;
use crate::task::state::TaskID;
use crate::task::vm::Vm86State;
use crate::time::system::{SystemClock, HUNDRED_NS_PER_TICK, MS_PER_TICK};

verus! {

/// A task that listens, and the number of its file.
#[derive(Clone, Copy, PartialEq, Eq, Structural, Debug)]
pub struct Listener {
    pub task: TaskID,
    pub io_index: u32,
}

/// What the kernel runs for a line: a function by its address, possibly in the memory
/// of a task.
#[derive(Clone, Copy, PartialEq, Eq, Structural, Debug)]
pub enum InstallableHandlerType {
    Empty,
    Kernel(u32),
    KernelTask(u32, TaskID),
}

/// The sixteen lines: who listens to each, in the order of their tasks, whether it is
/// active, and what the kernel runs for it.
pub struct InterruptTable {
    pub listeners: Vec<Vec<Listener>>,
    pub active: Vec<bool>,
    pub handlers: Vec<InstallableHandlerType>,
}

/// Listeners stand in the order of their tasks, and a task stands once.
pub open spec fn ordered(l: Seq<Listener>) -> bool {
    forall|i: int, j: int| 0 <= i < j < l.len() ==> (#[trigger] l[i]).task.0 < (#[trigger]
        l[j]).task.0
}

/// A task listens.
pub open spec fn listens(l: Seq<Listener>, task: TaskID) -> bool {
    exists|i: int| 0 <= i < l.len() && (#[trigger] l[i]).task == task
}

/// How many listeners come before a task.
pub open spec fn place_of(l: Seq<Listener>, task: TaskID) -> int
    decreases l.len(),
{
    if l.len() == 0 || l[0].task.0 >= task.0 { 0 } else { 1 + place_of(l.skip(1), task) }
}

proof fn lemma_place(l: Seq<Listener>, task: TaskID, n: int)
    requires
        0 <= n <= l.len(),
        forall|k: int| 0 <= k < n ==> (#[trigger] l[k]).task.0 < task.0,
        n < l.len() ==> l[n].task.0 >= task.0,
    ensures
        place_of(l, task) == n,
    decreases n,
{
    if n > 0 {
        assert(l[0].task.0 < task.0);
        assert forall|k: int| 0 <= k < n - 1 implies (#[trigger] l.skip(1)[k]).task.0 < task.0 by {
            assert(l.skip(1)[k] == l[k + 1]);
        }
        lemma_place(l.skip(1), task, n - 1);
    }
}

/// What is done for an interrupt.
#[derive(Clone, Copy, PartialEq, Eq, Structural, Debug)]
pub enum IrqPlan {
    /// The timer of the kernel.
    Timer,
    /// No device raised the line.
    Spurious,
    /// No device raised the line, but the first chip has to be told.
    SpuriousSecond,
    /// Run the handler of the line. Where `notify` is set, mask the line and tell the
    /// listeners.
    Serve { notify: bool },
}

/// A line of the chips is in service.
pub open spec fn in_service(serviced: u16, irq: int) -> bool {
    if irq == 7 { serviced / 0x80 % 2 == 1 } else { serviced / 0x8000 % 2 == 1 }
}

/// The listeners of a line after another one asked to listen, and whether it is new.
pub open spec fn joined(l: Seq<Listener>, listener: Listener) -> (Seq<Listener>, bool) {
    if listens(l, listener.task) {
        (l, false)
    } else {
        (l.insert(place_of(l, listener.task), listener), true)
    }
}

/// A line was raised: the lines that are active, and who is told.
pub open spec fn raised(active: Seq<bool>, l: Seq<Listener>, irq: int) -> (Seq<bool>, Seq<Listener>) {
    (active.update(irq, true), if active[irq] { Seq::empty() } else { l })
}

/// A line was served.
pub open spec fn acknowledged(active: Seq<bool>, irq: int) -> Seq<bool> {
    active.update(irq, false)
}

/// What is done about a line.
pub open spec fn plan_for(irq: int, serviced: u16, listened: bool) -> IrqPlan {
    if irq == 0 {
        IrqPlan::Timer
    } else if irq == 7 && !in_service(serviced, 7) {
        IrqPlan::Spurious
    } else if irq == 15 && !in_service(serviced, 15) {
        IrqPlan::SpuriousSecond
    } else {
        IrqPlan::Serve { notify: listened }
    }
}

impl InterruptTable {
    pub open spec fn wf(&self) -> bool {
        &&& self.listeners@.len() == 16
        &&& self.active@.len() == 16
        &&& self.handlers@.len() == 16
        &&& forall|i: int| 0 <= i < 16 ==> ordered((#[trigger] self.listeners@[i])@)
    }

    pub open spec fn of(&self, irq: int) -> Seq<Listener> {
        self.listeners@[irq]@
    }

    pub fn new() -> (r: Self)
        ensures
            r.wf(),
            forall|i: int| 0 <= i < 16 ==> #[trigger] r.of(i) == Seq::<Listener>::empty(),
            forall|i: int| 0 <= i < 16 ==> !#[trigger] r.active@[i],
            forall|i: int|
                0 <= i < 16 ==> #[trigger] r.handlers@[i] == InstallableHandlerType::Empty,
    {
        let mut listeners: Vec<Vec<Listener>> = Vec::new();
        let mut active: Vec<bool> = Vec::new();
        let mut handlers: Vec<InstallableHandlerType> = Vec::new();
        let mut i: usize = 0;
        while i < 16
            invariant
                i <= 16,
                listeners@.len() == i,
                active@.len() == i,
                handlers@.len() == i,
                forall|k: int| 0 <= k < i ==> (#[trigger] listeners@[k])@ == Seq::<Listener>::empty(),
                forall|k: int| 0 <= k < i ==> !#[trigger] active@[k],
                forall|k: int|
                    0 <= k < i ==> #[trigger] handlers@[k] == InstallableHandlerType::Empty,
            decreases 16 - i,
        {
            listeners.push(Vec::new());
            active.push(false);
            handlers.push(InstallableHandlerType::Empty);
            i += 1;
        }
        InterruptTable { listeners, active, handlers }
    }

    /// Let a task listen to a line. False where there is no such line, or the task
    /// listens to it already.
    pub fn add_interrupt_listener(&mut self, irq: u8, task: TaskID, io_index: u32) -> (r: bool)
        requires
            old(self).wf(),
        ensures
            final(self).wf(),
            r == (irq <= 15 && !listens(old(self).of(irq as int), task)),
            final(self).active == old(self).active,
            final(self).handlers == old(self).handlers,
            !r ==> final(self).listeners == old(self).listeners,
            irq <= 15 ==> (final(self).of(irq as int), r) == joined(
                old(self).of(irq as int), Listener { task, io_index },
            ),
            r ==> final(self).of(irq as int) == old(self).of(irq as int).insert(
                place_of(old(self).of(irq as int), task), Listener { task, io_index },
            ),
            r ==> forall|i: int|
                0 <= i < 16 && i != irq ==> #[trigger] final(self).of(i) == old(self).of(i),
    {
        if irq > 15 {
            return false;
        }
        let line: usize = irq as usize;
        let ghost l = self.of(irq as int);
        let n: usize = self.listeners[line].len();
        assert(ordered(self.listeners@[irq as int]@));
        let mut i: usize = 0;
        while i < n && self.listeners[line][i].task.0 < task.0
            invariant
                line < 16,
                self.wf(),
                l == self.of(line as int),
                n == l.len(),
                i <= n,
                forall|k: int| 0 <= k < i ==> (#[trigger] l[k]).task.0 < task.0,
            ensures
                i < n ==> l[i as int].task.0 >= task.0,
            decreases n - i,
        {
            i += 1;
        }
        if i < n && self.listeners[line][i].task.0 == task.0 {
            assert(l[i as int].task == task);
            return false;
        }
        proof {
            lemma_place(l, task, i as int);
            assert(!listens(l, task)) by {
                if listens(l, task) {
                    let k = choose|k: int| 0 <= k < l.len() && (#[trigger] l[k]).task == task;
                    if k >= i {
                        assert(k == i || l[i as int].task.0 < l[k].task.0);
                    }
                }
            }
        }
        let listener: Listener = Listener { task, io_index };
        self.listeners[line].insert(i, listener);
        proof {
            let after = l.insert(i as int, listener);
            assert(self.of(line as int) == after);
            assert forall|a: int, b: int| 0 <= a < b < after.len() implies (
            #[trigger] after[a]).task.0 < (#[trigger] after[b]).task.0 by {
                if a < i && b > i {
                    assert(after[a] == l[a] && after[b] == l[b - 1]);
                } else if a < i && b == i {
                    assert(after[a] == l[a]);
                } else if a == i {
                    assert(after[b] == l[b - 1]);
                    if b - 1 > i {
                        assert(l[i as int].task.0 < l[b - 1].task.0);
                    }
                } else if b < i {
                    assert(after[a] == l[a] && after[b] == l[b]);
                } else {
                    assert(after[a] == l[a - 1] && after[b] == l[b - 1]);
                }
            }
            assert forall|k: int| 0 <= k < 16 && k != irq implies #[trigger] self.of(k) == old(
                self,
            ).of(k) by {}
        }
        true
    }

    /// Whether any task listens to a line.
    pub fn has_listeners(&self, irq: u8) -> (r: bool)
        requires
            self.wf(),
        ensures
            r == (irq <= 15 && self.of(irq as int).len() > 0),
    {
        if irq > 15 {
            return false;
        }
        self.listeners[irq as usize].len() > 0
    }

    /// Mark a line active. Gives the listeners to tell: all where it was not active
    /// before.
    pub fn notify_interrupt_listeners(&mut self, irq: u8) -> (r: Vec<Listener>)
        requires
            old(self).wf(),
        ensures
            final(self).wf(),
            final(self).listeners == old(self).listeners,
            final(self).handlers == old(self).handlers,
            irq <= 15 ==> (final(self).active@, r@) == raised(
                old(self).active@, old(self).of(irq as int), irq as int,
            ),
            final(self).active@ == (if irq <= 15 {
                old(self).active@.update(irq as int, true)
            } else {
                old(self).active@
            }),
            r@ == (if irq <= 15 && !old(self).active@[irq as int] {
                old(self).of(irq as int)
            } else {
                Seq::empty()
            }),
    {
        let mut out: Vec<Listener> = Vec::new();
        assert(out@ =~= Seq::empty());
        if irq > 15 {
            return out;
        }
        let line: usize = irq as usize;
        let was: bool = self.active[line];
        self.active.set(line, true);
        if was {
            return out;
        }
        let n: usize = self.listeners[line].len();
        let mut i: usize = 0;
        while i < n
            invariant
                line < 16,
                self.wf(),
                self.listeners == old(self).listeners,
                n == self.of(line as int).len(),
                i <= n,
                out@ =~= self.of(line as int).subrange(0, i as int),
            decreases n - i,
        {
            out.push(self.listeners[line][i]);
            i += 1;
        }
        assert(out@ =~= self.of(line as int));
        out
    }

    /// Whether a line is active.
    pub fn is_interrupt_active(&self, irq: u8) -> (r: bool)
        requires
            self.wf(),
        ensures
            r == (irq <= 15 && self.active@[irq as int]),
    {
        if irq > 15 {
            return false;
        }
        self.active[irq as usize]
    }

    /// A line was served. True where it is to be unmasked.
    pub fn acknowledge_interrupt(&mut self, irq: u8) -> (r: bool)
        requires
            old(self).wf(),
        ensures
            final(self).wf(),
            r == (irq <= 15),
            final(self).listeners == old(self).listeners,
            final(self).handlers == old(self).handlers,
            irq <= 15 ==> final(self).active@ == acknowledged(old(self).active@, irq as int),
            final(self).active@ == (if irq <= 15 {
                old(self).active@.update(irq as int, false)
            } else {
                old(self).active@
            }),
    {
        if irq > 15 {
            return false;
        }
        self.active.set(irq as usize, false);
        true
    }

    /// Set what the kernel runs for a line.
    pub fn install_interrupt_handler(&mut self, irq: u32, f: u32, task: Option<TaskID>)
        requires
            old(self).wf(),
            irq < 16,
        ensures
            final(self).wf(),
            final(self).listeners == old(self).listeners,
            final(self).active == old(self).active,
            final(self).handlers@ == old(self).handlers@.update(
                irq as int,
                match task {
                    Some(id) => InstallableHandlerType::KernelTask(f, id),
                    None => InstallableHandlerType::Kernel(f),
                },
            ),
    {
        let handler: InstallableHandlerType = match task {
            Some(id) => InstallableHandlerType::KernelTask(f, id),
            None => InstallableHandlerType::Kernel(f),
        };
        self.handlers.set(irq as usize, handler);
    }

    /// What the kernel runs for a line.
    pub fn try_installed_handler(&self, irq: u32) -> (r: InstallableHandlerType)
        requires
            self.wf(),
            irq < 16,
        ensures
            r == self.handlers@[irq as int],
    {
        self.handlers[irq as usize]
    }

    /// What is done for an interrupt. `serviced` tells which lines the chips serve:
    /// line 7 and line 15 may interrupt without a device.
    pub fn handle_pic_interrupt(&self, irq: u32, serviced: u16) -> (r: IrqPlan)
        requires
            self.wf(),
            irq < 16,
        ensures
            r == plan_for(irq as int, serviced, self.of(irq as int).len() > 0),
            r == (if irq == 0 {
                IrqPlan::Timer
            } else if irq == 7 && !in_service(serviced, 7) {
                IrqPlan::Spurious
            } else if irq == 15 && !in_service(serviced, 15) {
                IrqPlan::SpuriousSecond
            } else {
                IrqPlan::Serve { notify: self.of(irq as int).len() > 0 }
            }),
    {
        if irq == 0 {
            return IrqPlan::Timer;
        }
        if irq == 7 && serviced / 0x80 % 2 == 0 {
            return IrqPlan::Spurious;
        }
        if irq == 15 && serviced / 0x8000 % 2 == 0 {
            return IrqPlan::SpuriousSecond;
        }
        IrqPlan::Serve { notify: self.has_listeners(irq as u8) }
    }
}

/// A listener is told once of an interrupt: until the line was served, further ones
/// tell nobody, and after that the next one tells all again.
pub proof fn listeners_are_told_once(active: Seq<bool>, irq: int)
    requires
        active.len() == 16,
        0 <= irq < 16,
    ensures
        active.update(irq, true)[irq],
        active.update(irq, true).update(irq, true) == active.update(irq, true),
        !active.update(irq, true).update(irq, false)[irq],
        forall|i: int|
            0 <= i < 16 && i != irq ==> active.update(irq, true).update(irq, false)[i]
                == #[trigger] active[i],
{
    assert(active.update(irq, true).update(irq, true) =~= active.update(irq, true));
}

/// The timer interrupted: the clock goes on, and gives the milliseconds by which the
/// tasks that wait have waited longer.
pub fn handle_pit_interrupt(clock: &mut SystemClock) -> (r: u32)
    requires
        old(clock).now() + HUNDRED_NS_PER_TICK <= u64::MAX,
    ensures
        r == MS_PER_TICK,
        final(clock).wf(),
        final(clock).now() == old(clock).now() + HUNDRED_NS_PER_TICK,
        final(clock).system_ticks == crate::time::system::next_count(old(clock).system_ticks),
        final(clock).user_ticks == old(clock).user_ticks,
        final(clock).kernel_ticks == old(clock).kernel_ticks,
        final(clock).idle_ticks == old(clock).idle_ticks,
{
    clock.tick();
    MS_PER_TICK
}

/// What the timer interrupted.
#[derive(Clone, Copy, PartialEq, Eq, Structural, Debug)]
pub struct Interrupted {
    pub cs: u32,
    pub eflags: u32,
}

/// A program: outside the innermost ring, or in virtual 8086 mode.
pub open spec fn was_user(frame: Interrupted) -> bool {
    frame.cs & 3 != 0 || frame.eflags & 0x20000 != 0
}

/// The timer interrupted something: a program in virtual 8086 mode that wants the timer
/// is told of it by a trap. True where the task has to give way to others: its time is
/// over, and it is a program.
pub fn timer_interrupted(frame: &mut Interrupted, state: &mut Vm86State, slice_over: bool) -> (r: bool)
    ensures
        r == (slice_over && was_user(*old(frame))),
        ({
            let told = old(frame).eflags & 0x20000 != 0 && old(state).irq_mask & VM86_IRQ_TIMER
                != 0;
            &&& *final(frame) == (if told {
                Interrupted { eflags: old(frame).eflags | 0x100, ..*old(frame) }
            } else {
                *old(frame)
            })
            &&& *final(state) == (if told {
                Vm86State {
                    pending_irqs: old(state).pending_irqs | VM86_IRQ_TIMER,
                    ..*old(state)
                }
            } else {
                *old(state)
            })
        }),
{
    let is_vm86: bool = frame.eflags & 0x20000 != 0;
    let is_user: bool = frame.cs & 3 != 0 || is_vm86;
    if is_vm86 && state.irq_mask & VM86_IRQ_TIMER != 0 {
        state.pending_irqs = state.pending_irqs | VM86_IRQ_TIMER;
        frame.eflags = frame.eflags | 0x100;
    }
    slice_over && is_user
}

/// All listeners of a line are told when it is raised, once: until it is acknowledged, raising it again
/// tells nobody. Other lines are not touched.
pub proof fn raised_lines_tell_their_listeners(active: Seq<bool>, l: Seq<Listener>, irq: int, other: int)
    requires
        active.len() == 16,
        0 <= irq < 16,
        0 <= other < 16,
        other != irq,
    ensures
        ({
            let (once, first) = raised(active, l, irq);
            let (twice, second) = raised(once, l, irq);
            let free = acknowledged(twice, irq);
            let (_, third) = raised(free, l, irq);
            &&& !active[irq] ==> first == l
            &&& second.len() == 0
            &&& third == l
            &&& once[other] == active[other] && free[other] == active[other]
        }),
{
}

/// A task that asks to listen is among the listeners, once; all others stay, in their order.
pub proof fn listeners_are_added_once(l: Seq<Listener>, listener: Listener)
    ensures
        ({
            let (after, new) = joined(l, listener);
            &&& listens(after, listener.task)
            &&& new ==> after.len() == l.len() + 1 && after.contains(listener) && after.remove(
                place_of(l, listener.task),
            ) == l
            &&& !new ==> after == l
            &&& new == !listens(l, listener.task)
            &&& !joined(after, listener).1
        }),
{
    lemma_place_in(l, listener.task);
    let (after, new) = joined(l, listener);
    if new {
        let at = place_of(l, listener.task);
        assert(after[at] == listener);
        assert(after.remove(at) =~= l);
        assert(listens(after, listener.task));
    }
}

proof fn lemma_place_in(l: Seq<Listener>, task: TaskID)
    ensures
        0 <= place_of(l, task) <= l.len(),
    decreases l.len(),
{
    if l.len() > 0 && l[0].task.0 < task.0 {
        lemma_place_in(l.skip(1), task);
    }
}

/// The last line of each chip may be raised by nobody: it is served only if the chip says that it is in
/// service. The first line is the timer, and every other line is served.
pub proof fn spurious_interrupts_are_passed_over(irq: int, serviced: u16, listened: bool)
    requires
        0 <= irq < 16,
    ensures
        (plan_for(irq, serviced, listened) is Timer) == (irq == 0),
        (plan_for(irq, serviced, listened) is Spurious) == (irq == 7 && serviced as int / 0x80 % 2 == 0),
        (plan_for(irq, serviced, listened) is SpuriousSecond) == (irq == 15 && serviced as int / 0x8000
            == 0),
        plan_for(irq, serviced, listened) matches IrqPlan::Serve { notify } ==> notify == listened,
{
}

} // verus!

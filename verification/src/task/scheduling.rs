//! Which task runs next.
use std::collections::{BTreeMap, VecDeque};

use vstd::prelude::*;

use crate::task::state::{RunState, TaskID};

verus! {

/// Work that does not belong to a task.
#[derive(Clone, Copy, PartialEq, Eq, Structural, Debug)]
pub struct Tasklet {}

/// Something to run.
#[derive(Clone, Copy, PartialEq, Eq, Structural, Debug)]
pub enum WorkItem {
    Task(TaskID),
    Tasklet(Tasklet),
}

/// The state of every task, by number.
pub struct TaskStates {
    pub states: BTreeMap<u32, RunState>,
}

/// A task is there and can run.
pub open spec fn runnable(states: Map<u32, RunState>, id: TaskID) -> bool {
    states.dom().contains(id.0) && states[id.0].resumable()
}

impl TaskStates {
    pub fn can_resume(&self, id: TaskID) -> (r: bool)
        ensures
            r == runnable(self.states@, id),
    {
        match self.states.get(&id.0) {
            Some(state) => match state {
                RunState::Initialized => true,
                RunState::Running => true,
                _ => false,
            },
            None => false,
        }
    }
}

/// What one processor runs, and what it has still to run. A task runs for two ticks at
/// a time.
pub struct CPUScheduler {
    pub cpu_index: usize,
    pub current_task: TaskID,
    pub idle_task: TaskID,
    pub work_queue: VecDeque<WorkItem>,
    pub has_lapic: bool,
    pub current_ticks: u8,
}

/// Everything in a queue is a task.
pub open spec fn only_tasks(queue: Seq<WorkItem>) -> bool {
    forall|i: int| 0 <= i < queue.len() ==> (#[trigger] queue[i]) is Task
}

pub open spec fn id_of(item: WorkItem) -> TaskID {
    match item {
        WorkItem::Task(id) => id,
        WorkItem::Tasklet(_) => TaskID(0),
    }
}

/// The first task of a queue that can run, or the idle task, and the queue after it.
/// Tasks that cannot run are dropped on the way.
pub open spec fn next_of(queue: Seq<WorkItem>, states: Map<u32, RunState>, idle: TaskID) -> (
    TaskID,
    Seq<WorkItem>,
)
    decreases queue.len(),
{
    if queue.len() == 0 {
        (idle, queue)
    } else if runnable(states, id_of(queue[0])) {
        (id_of(queue[0]), queue.skip(1))
    } else {
        next_of(queue.skip(1), states, idle)
    }
}

/// The queue with the current task at its end, where it can still run.
pub open spec fn queue_with_current(
    queue: Seq<WorkItem>, current: TaskID, states: Map<u32, RunState>, idle: TaskID,
) -> Seq<WorkItem> {
    if current != idle && runnable(states, current) {
        queue.push(WorkItem::Task(current))
    } else {
        queue
    }
}

/// Whether a tick ends a turn, and the count after it.
pub open spec fn after_tick(ticks: u8) -> (bool, u8) {
    if ticks >= 1 { (true, 0) } else { (false, 1) }
}

impl CPUScheduler {
    pub fn new(cpu_index: usize, idle_task: TaskID) -> (r: Self)
        ensures
            r.cpu_index == cpu_index,
            r.idle_task == idle_task,
            r.current_task == TaskID(0),
            r.work_queue@ == Seq::<WorkItem>::empty(),
            !r.has_lapic,
            r.current_ticks == 0,
    {
        CPUScheduler {
            cpu_index,
            current_task: TaskID(0),
            idle_task,
            work_queue: VecDeque::new(),
            has_lapic: false,
            current_ticks: 0,
        }
    }

    pub fn get_current_task(&self) -> (r: TaskID)
        ensures
            r == self.current_task,
    {
        self.current_task
    }

    pub fn get_idle_task(&self) -> (r: TaskID)
        ensures
            r == self.idle_task,
    {
        self.idle_task
    }

    /// Everything but the queue.
    pub open spec fn same_but_queue(&self, other: CPUScheduler) -> bool {
        &&& self.cpu_index == other.cpu_index
        &&& self.current_task == other.current_task
        &&& self.idle_task == other.idle_task
        &&& self.has_lapic == other.has_lapic
        &&& self.current_ticks == other.current_ticks
    }

    /// Take the first thing to run.
    pub fn get_next_work_item(&mut self) -> (r: Option<WorkItem>)
        ensures
            final(self).same_but_queue(*old(self)),
            match r {
                Some(item) => old(self).work_queue@.len() > 0 && item == old(self).work_queue@[0]
                    && final(self).work_queue@ == old(self).work_queue@.skip(1),
                None => old(self).work_queue@.len() == 0 && final(self).work_queue@ == old(
                    self,
                ).work_queue@,
            },
    {
        let r: Option<WorkItem> = self.work_queue.pop_front();
        assert(r is Some ==> self.work_queue@ =~= old(self).work_queue@.skip(1));
        r
    }

    /// Put something to run at the end.
    pub fn reenqueue_work_item(&mut self, item: WorkItem)
        ensures
            final(self).same_but_queue(*old(self)),
            final(self).work_queue@ == old(self).work_queue@.push(item),
    {
        self.work_queue.push_back(item);
    }

    /// Let a task run again.
    pub fn reenqueue_task(&mut self, id: TaskID)
        ensures
            final(self).same_but_queue(*old(self)),
            final(self).work_queue@ == old(self).work_queue@.push(WorkItem::Task(id)),
    {
        self.reenqueue_work_item(WorkItem::Task(id));
    }

    /// A tick of the timer. True where the time of the current task is over.
    pub fn tick(&mut self) -> (r: bool)
        ensures
            (r, final(self).current_ticks) == after_tick(old(self).current_ticks),
            final(self).work_queue == old(self).work_queue,
            final(self).current_task == old(self).current_task,
            final(self).idle_task == old(self).idle_task,
            final(self).cpu_index == old(self).cpu_index,
            final(self).has_lapic == old(self).has_lapic,
    {
        if self.current_ticks >= 1 {
            self.current_ticks = 0;
            return true;
        }
        self.current_ticks = self.current_ticks + 1;
        false
    }

    /// Choose the task that runs next. The current one goes to the end of the queue if
    /// it can still run. Gives the task to switch to, unless it is the current one.
    pub fn switch(&mut self, tasks: &TaskStates) -> (r: Option<TaskID>)
        requires
            only_tasks(old(self).work_queue@),
        ensures
            only_tasks(final(self).work_queue@),
            ({
                let queue = queue_with_current(
                    old(self).work_queue@, old(self).current_task, tasks.states@,
                    old(self).idle_task,
                );
                let (next, rest) = next_of(queue, tasks.states@, old(self).idle_task);
                &&& final(self).work_queue@ == rest
                &&& final(self).current_task == next
                &&& r == (if next == old(self).current_task { None } else { Some(next) })
            }),
            final(self).idle_task == old(self).idle_task,
            final(self).cpu_index == old(self).cpu_index,
            final(self).has_lapic == old(self).has_lapic,
            final(self).current_ticks == old(self).current_ticks,
    {
        let current: TaskID = self.current_task;
        let idle: TaskID = self.idle_task;
        if current.0 != idle.0 {
            if tasks.can_resume(current) {
                self.reenqueue_work_item(WorkItem::Task(current));
            }
        }
        let ghost states = tasks.states@;
        let ghost goal = next_of(self.work_queue@, states, idle);
        let mut next: TaskID = idle;
        let mut found: bool = false;
        while !found && self.work_queue.len() > 0
            invariant
                states == tasks.states@,
                only_tasks(self.work_queue@),
                self.idle_task == idle,
                self.current_task == current,
                self.cpu_index == old(self).cpu_index,
                self.has_lapic == old(self).has_lapic,
                self.current_ticks == old(self).current_ticks,
                found ==> goal == (next, self.work_queue@),
                !found ==> next == idle && goal == next_of(self.work_queue@, states, idle),
            decreases self.work_queue@.len(),
        {
            let ghost before = self.work_queue@;
            match self.get_next_work_item() {
                Some(item) => {
                    assert forall|i: int| 0 <= i < self.work_queue@.len() implies (
                    #[trigger] self.work_queue@[i]) is Task by {
                        assert(self.work_queue@[i] == before[i + 1]);
                    }
                    match item {
                        WorkItem::Task(id) => {
                            if tasks.can_resume(id) {
                                next = id;
                                found = true;
                            }
                        },
                        WorkItem::Tasklet(_) => {},
                    }
                },
                None => {},
            }
        }
        if next.0 == current.0 {
            return None;
        }
        self.current_task = next;
        Some(next)
    }
}

/// The task that runs next is the first in the queue that can run: none that can run
/// stood before it. The idle task runs only where none can.
pub proof fn first_runnable_task_is_next(
    queue: Seq<WorkItem>, states: Map<u32, RunState>, idle: TaskID,
) -> (n: int)
    ensures
        0 <= n <= queue.len(),
        forall|i: int| 0 <= i < n ==> !runnable(states, id_of(#[trigger] queue[i])),
        n < queue.len() ==> runnable(states, id_of(queue[n])) && next_of(queue, states, idle) == (
            id_of(queue[n]), queue.skip(n + 1),
        ),
        n == queue.len() ==> next_of(queue, states, idle) == (idle, Seq::<WorkItem>::empty()),
    decreases queue.len(),
{
    if queue.len() == 0 {
        assert(queue =~= Seq::<WorkItem>::empty());
        0
    } else if runnable(states, id_of(queue[0])) {
        0
    } else {
        let m = first_runnable_task_is_next(queue.skip(1), states, idle);
        assert forall|i: int| 0 <= i < m + 1 implies !runnable(
            states, id_of(#[trigger] queue[i]),
        ) by {
            if i > 0 {
                assert(queue.skip(1)[i - 1] == queue[i]);
            }
        }
        if m < queue.len() - 1 {
            assert(queue.skip(1)[m] == queue[m + 1]);
            assert(queue.skip(1).skip(m + 1) =~= queue.skip(m + 2));
        }
        m + 1
    }
}

/// No task that can run is lost: whichever stood in the queue runs next or still
/// stands there.
pub proof fn no_runnable_task_is_lost(
    queue: Seq<WorkItem>, states: Map<u32, RunState>, idle: TaskID, k: int,
)
    requires
        0 <= k < queue.len(),
        queue[k] is Task,
        runnable(states, id_of(queue[k])),
    ensures
        ({
            let (next, rest) = next_of(queue, states, idle);
            next == id_of(queue[k]) || rest.contains(queue[k])
        }),
{
    let n = first_runnable_task_is_next(queue, states, idle);
    assert(n <= k) by {
        if n > k {
            assert(!runnable(states, id_of(queue[k])));
        }
    }
    if n < k {
        assert(queue.skip(n + 1)[k - n - 1] == queue[k]);
    }
}

/// A task that keeps running takes turns: when it is switched away from, it stands
/// behind all others that can run.
pub proof fn tasks_take_turns(
    queue: Seq<WorkItem>, current: TaskID, states: Map<u32, RunState>, idle: TaskID,
)
    requires
        current != idle,
        runnable(states, current),
        next_of(queue_with_current(queue, current, states, idle), states, idle).0 != current,
    ensures
        ({
            let (next, rest) = next_of(
                queue_with_current(queue, current, states, idle), states, idle,
            );
            rest.len() > 0 && rest.last() == WorkItem::Task(current)
        }),
{
    let all = queue_with_current(queue, current, states, idle);
    let n = first_runnable_task_is_next(all, states, idle);
    assert(all.last() == WorkItem::Task(current));
    assert(n < all.len() - 1) by {
        if n >= all.len() - 1 {
            assert(n == all.len() - 1 || !runnable(states, id_of(all[all.len() - 1])));
        }
    }
    assert(all.skip(n + 1).last() == all.last());
}

/// Every second tick ends a turn: of any two in a row exactly one does, and after two
/// the count is where it was.
pub proof fn turns_last_two_ticks(ticks: u8)
    requires
        ticks <= 1,
    ensures
        ({
            let (first, mid) = after_tick(ticks);
            let (second, end) = after_tick(mid);
            first != second && end == ticks
        }),
{
}

} // verus!

use vstd::prelude::*;
use crate::event::{Event, EventQueue, EventType, first_of_type};
use crate::semaphore::{Semaphore, acquire_spec, release_spec};
use crate::task::{Task, TaskControl, TaskState, STACK_SIZE, CONTEXT_FRAME_SIZE, ticks_between, initial_stack};

verus! {

/// Slots in the task table.
pub const MAX_TASKS: usize = 16;

/// Semaphores in the pool.
pub const MAX_SEMAPHORES: usize = 8;

#[derive(Clone, Copy, PartialEq, Eq, Structural, Debug)]
pub enum SchedulerError {
    TaskLimitReached,
    TaskNotFound,
    InvalidPriority,
    AlreadyRunning,
    EventQueueFull,
    Timeout,
    NoSemaphoresAvailable,
    InvalidSemaphore,
    SemaphoreLocked,
    /// The calling task was blocked; it calls again once it is dispatched.
    WouldBlock,
}

#[derive(Clone, Copy, PartialEq, Eq, Structural, Debug)]
pub enum TaskPriority {
    Idle,
    Low,
    Normal,
    High,
    Critical,
}

impl TaskPriority {
    pub open spec fn spec_level(self) -> u8 {
        match self {
            TaskPriority::Idle => 0,
            TaskPriority::Low => 1,
            TaskPriority::Normal => 2,
            TaskPriority::High => 3,
            TaskPriority::Critical => 4,
        }
    }

    /// The priority as stored in a task: higher runs first.
    pub fn level(self) -> (r: u8)
        ensures
            r == self.spec_level(),
    {
        match self {
            TaskPriority::Idle => 0,
            TaskPriority::Low => 1,
            TaskPriority::Normal => 2,
            TaskPriority::High => 3,
            TaskPriority::Critical => 4,
        }
    }

    pub fn from_level(level: u8) -> (r: Result<TaskPriority, SchedulerError>)
        ensures
            level <= 4 ==> r is Ok && r->Ok_0.spec_level() == level,
            level > 4 ==> r == Err::<TaskPriority, SchedulerError>(SchedulerError::InvalidPriority),
    {
        match level {
            0 => Ok(TaskPriority::Idle),
            1 => Ok(TaskPriority::Low),
            2 => Ok(TaskPriority::Normal),
            3 => Ok(TaskPriority::High),
            4 => Ok(TaskPriority::Critical),
            _ => Err(SchedulerError::InvalidPriority),
        }
    }
}

/// Number of occupied slots among the first `n` of `s`.
pub open spec fn occupied_count(s: Seq<Option<Task>>, n: int) -> nat
    decreases n,
{
    if n <= 0 {
        0
    } else {
        occupied_count(s, n - 1) + if s[n - 1] is Some { 1nat } else { 0nat }
    }
}

pub open spec fn has_free_slot(s: Seq<Option<Task>>) -> bool {
    exists|i: int| 0 <= i < s.len() && s[i] is None
}

pub open spec fn is_first_free(s: Seq<Option<Task>>, i: int) -> bool {
    &&& 0 <= i < s.len()
    &&& s[i] is None
    &&& forall|j: int| 0 <= j < i ==> s[j] is Some
}

/// `t` is a task as `add_task` installs it: Ready, not waiting, with a deadline of
/// `period_ms` and a stack that enters `entry` when first restored.
pub open spec fn is_new_task(t: Task, entry: u16, priority: u8, period_ms: u32) -> bool {
    &&& t.wf()
    &&& t.control.priority == priority
    &&& t.control.state == TaskState::Ready
    &&& t.control.deadline_ms == period_ms
    &&& t.control.waiting_event is None
    &&& t.control.waiting_semaphore is None
    &&& t.stack@ == initial_stack(entry)
    &&& t.control.stack_ptr == STACK_SIZE - CONTEXT_FRAME_SIZE
}

/// Slot `i` holds a Ready task other than the Idle task.
pub open spec fn is_candidate(s: Seq<Option<Task>>, idle: Option<usize>, i: int) -> bool {
    &&& 0 <= i < s.len()
    &&& s[i] is Some
    &&& idle != Some(i as usize)
    &&& s[i]->Some_0.control.state == TaskState::Ready
}

pub open spec fn priority_at(s: Seq<Option<Task>>, i: int) -> u8 {
    s[i]->Some_0.control.priority
}

/// Slot `i` holds a candidate of the greatest priority, and no candidate of that priority
/// sits in a lower slot.
pub open spec fn is_best(s: Seq<Option<Task>>, idle: Option<usize>, i: int) -> bool {
    &&& is_candidate(s, idle, i)
    &&& forall|j: int|
        #[trigger] is_candidate(s, idle, j) ==> priority_at(s, j) < priority_at(s, i) || (
        priority_at(s, j) == priority_at(s, i) && i <= j)
}

pub open spec fn has_candidate(s: Seq<Option<Task>>, idle: Option<usize>) -> bool {
    exists|i: int| is_candidate(s, idle, i)
}

/// `r` is what the scheduling rule picks from table `s`: the best candidate, or the Idle
/// task when there is no candidate.
pub open spec fn is_selection(s: Seq<Option<Task>>, idle: Option<usize>, r: Option<usize>) -> bool {
    if has_candidate(s, idle) {
        r is Some && is_best(s, idle, r->Some_0 as int)
    } else {
        r == idle
    }
}

/// Why blocked tasks are made Ready again.
#[derive(Clone, Copy, PartialEq, Eq, Structural, Debug)]
pub enum WakeReason {
    /// An event of this type was posted.
    EventPosted(EventType),
    /// The semaphore in this pool slot was released.
    SemaphoreReleased(usize),
    /// The tick counter reached the end of an event wait.
    WaitExpired,
}

pub open spec fn with_control(t: Task, c: TaskControl) -> Task {
    Task { control: c, ..t }
}

/// Whether a task with control block `c` is woken for `reason` at tick `now`.
pub open spec fn wakes(c: TaskControl, reason: WakeReason, now: u32) -> bool {
    c.state == TaskState::Blocked && match reason {
        WakeReason::EventPosted(t) => c.waiting_event == Some(t),
        WakeReason::SemaphoreReleased(id) => c.waiting_semaphore == Some(id),
        WakeReason::WaitExpired => c.waiting_event is Some && ticks_between(c.wait_start, now) >= c.wait_timeout,
    }
}

/// The control block of a woken task: Ready, and no longer listed on a released semaphore.
pub open spec fn woken_control(c: TaskControl, reason: WakeReason) -> TaskControl {
    match reason {
        WakeReason::SemaphoreReleased(_) => TaskControl { state: TaskState::Ready, waiting_semaphore: None, ..c },
        _ => TaskControl { state: TaskState::Ready, ..c },
    }
}

/// Slot `o` after waking for `reason` at tick `now`.
pub open spec fn wake_slot(o: Option<Task>, reason: WakeReason, now: u32) -> Option<Task> {
    match o {
        Some(t) => if wakes(t.control, reason, now) {
            Some(with_control(t, woken_control(t.control, reason)))
        } else {
            o
        },
        None => None,
    }
}

pub open spec fn wake_all(s: Seq<Option<Task>>, reason: WakeReason, now: u32) -> Seq<Option<Task>> {
    s.map_values(|o: Option<Task>| wake_slot(o, reason, now))
}

/// The table after the Running task in slot `cur`, if any, is put back to Ready.
pub open spec fn preempt(s: Seq<Option<Task>>, cur: Option<usize>) -> Seq<Option<Task>> {
    match cur {
        Some(c) => if 0 <= c < s.len() && s[c as int] is Some && s[c as int]->Some_0.control.state
            == TaskState::Running {
            s.update(
                c as int,
                Some(
                    with_control(
                        s[c as int]->Some_0,
                        TaskControl { state: TaskState::Ready, ..s[c as int]->Some_0.control },
                    ),
                ),
            )
        } else {
            s
        },
        None => s,
    }
}

/// The table after the task in slot `n` is dispatched at tick `now`.
pub open spec fn dispatched(s: Seq<Option<Task>>, n: int, now: u32) -> Seq<Option<Task>> {
    s.update(
        n,
        Some(
            with_control(
                s[n]->Some_0,
                TaskControl { state: TaskState::Running, last_wake_time: now, ..s[n]->Some_0.control },
            ),
        ),
    )
}

/// No slot of `s` holds a Running task.
pub open spec fn none_running(s: Seq<Option<Task>>) -> bool {
    forall|i: int| 0 <= i < s.len() && #[trigger] s[i] is Some ==> s[i]->Some_0.control.state != TaskState::Running
}

/// The task in slot `n` is the one Running task of `s`.
pub open spec fn only_running(s: Seq<Option<Task>>, n: int) -> bool {
    forall|i: int|
        0 <= i < s.len() ==> (#[trigger] s[i] is Some && s[i]->Some_0.control.state == TaskState::Running <==> i
            == n)
}

/// Control block of the current task after it starts a wait for `t` at tick `now`.
pub open spec fn waiting_control(c: TaskControl, t: EventType, timeout_ms: u32, now: u32) -> TaskControl {
    TaskControl {
        waiting_event: Some(t),
        wait_start: now,
        wait_timeout: timeout_ms,
        state: TaskState::Blocked,
        waiting_semaphore: None,
        ..c
    }
}

/// Control block of the task in slot `cur`, when there is one.
pub open spec fn current_control(s: Seq<Option<Task>>, cur: Option<usize>) -> Option<TaskControl> {
    match cur {
        Some(c) => if c < s.len() && s[c as int] is Some {
            Some(s[c as int]->Some_0.control)
        } else {
            None
        },
        None => None,
    }
}

/// Control block of the task in slot `cur` when it is one that may block: every task but
/// the Idle task, which never blocks.
pub open spec fn blockable_control(s: Seq<Option<Task>>, cur: Option<usize>, idle: Option<usize>) -> Option<TaskControl> {
    if cur is Some && cur == idle {
        None
    } else {
        current_control(s, cur)
    }
}

/// The table with control block `f` given to the task in slot `cur`; unchanged when there is
/// no such task.
pub open spec fn with_current_control(s: Seq<Option<Task>>, cur: Option<usize>, f: TaskControl) -> Seq<Option<Task>> {
    if current_control(s, cur) is Some {
        s.update(cur->Some_0 as int, Some(with_control(s[cur->Some_0 as int]->Some_0, f)))
    } else {
        s
    }
}

pub open spec fn has_free_semaphore(p: Seq<Option<Semaphore>>) -> bool {
    exists|i: int| 0 <= i < p.len() && p[i] is None
}

pub open spec fn is_first_free_semaphore(p: Seq<Option<Semaphore>>, i: int) -> bool {
    &&& 0 <= i < p.len()
    &&& p[i] is None
    &&& forall|j: int| 0 <= j < i ==> p[j] is Some
}

proof fn lemma_count_bound(s: Seq<Option<Task>>, n: int)
    requires
        0 <= n <= s.len(),
    ensures
        occupied_count(s, n) <= n,
        occupied_count(s, n) == n <==> forall|j: int| 0 <= j < n ==> s[j] is Some,
    decreases n,
{
    if n > 0 {
        lemma_count_bound(s, n - 1);
    }
}

proof fn lemma_count_update(s: Seq<Option<Task>>, i: int, v: Option<Task>, n: int)
    requires
        0 <= i < s.len(),
        0 <= n <= s.len(),
    ensures
        occupied_count(s.update(i, v), n) + (if i < n && s[i] is Some { 1int } else { 0int })
            == occupied_count(s, n) + (if i < n && v is Some { 1int } else { 0int }),
    decreases n,
{
    if n > 0 {
        lemma_count_update(s, i, v, n - 1);
    }
}

/// The scheduler: the task table, the tick counter, the event queue and the semaphore pool.
pub struct Scheduler {
    tasks: Vec<Option<Task>>,
    current_task: Option<usize>,
    task_count: usize,
    tick_count: u32,
    reschedule_pending: bool,
    idle_task_index: Option<usize>,
    event_queue: EventQueue,
    semaphores: Vec<Option<Semaphore>>,
    running: bool,
    next_task_id: u32,
    statistics: Vec<TaskStatistics>,
}

#[derive(Clone, Copy)]
struct TaskStatistics {
    total_runs: u32,
    stack_usage: u16,
}

impl Scheduler {
    pub closed spec fn slots(&self) -> Seq<Option<Task>> {
        self.tasks@
    }

    pub closed spec fn current(&self) -> Option<usize> {
        self.current_task
    }

    pub closed spec fn count(&self) -> usize {
        self.task_count
    }

    pub closed spec fn ticks(&self) -> u32 {
        self.tick_count
    }

    pub closed spec fn reschedule_requested(&self) -> bool {
        self.reschedule_pending
    }

    pub closed spec fn idle(&self) -> Option<usize> {
        self.idle_task_index
    }

    pub closed spec fn queue(&self) -> Seq<Event> {
        self.event_queue@
    }

    pub closed spec fn pool(&self) -> Seq<Option<Semaphore>> {
        self.semaphores@
    }

    /// Times the task in slot `i` has been switched away from.
    pub closed spec fn runs(&self, i: int) -> u32 {
        self.statistics@[i].total_runs
    }

    /// Id that the next task added will get.
    pub closed spec fn next_id(&self) -> u32 {
        self.next_task_id
    }

    pub closed spec fn is_running(&self) -> bool {
        self.running
    }

    pub closed spec fn wf(&self) -> bool {
        &&& self.tasks@.len() == MAX_TASKS
        &&& self.statistics@.len() == MAX_TASKS
        &&& self.semaphores@.len() == MAX_SEMAPHORES
        &&& forall|i: int| 0 <= i < MAX_TASKS && #[trigger] self.tasks@[i] is Some ==> self.tasks@[i]->Some_0.wf()
        &&& self.task_count == occupied_count(self.tasks@, MAX_TASKS as int)
        &&& self.event_queue.wf()
        &&& self.current_task matches Some(c) ==> c < MAX_TASKS
        &&& self.idle_task_index matches Some(k) ==> k < MAX_TASKS && self.tasks@[k as int] is Some
            && self.tasks@[k as int]->Some_0.control.priority == 0
        &&& self.running ==> self.idle_task_index is Some
        &&& forall|i: int|
            0 <= i < MAX_TASKS && #[trigger] self.tasks@[i] is Some && self.tasks@[i]->Some_0.control.state
                == TaskState::Running ==> self.current_task == Some(i as usize)
        &&& forall|i: int|
            0 <= i < MAX_TASKS && #[trigger] self.tasks@[i] is Some ==> self.tasks@[i]->Some_0.control.id
                < self.next_task_id
    }

    /// An empty, stopped scheduler.
    pub fn new() -> (r: Scheduler)
        ensures
            r.wf(),
            r.slots() == Seq::new(MAX_TASKS as nat, |i: int| None::<Task>),
            r.pool() == Seq::new(MAX_SEMAPHORES as nat, |i: int| None::<Semaphore>),
            r.queue() == Seq::<Event>::empty(),
            r.count() == 0,
            r.ticks() == 0,
            r.current() is None,
            r.idle() is None,
            !r.is_running(),
            !r.reschedule_requested(),
    {
        let mut tasks: Vec<Option<Task>> = Vec::new();
        let mut statistics: Vec<TaskStatistics> = Vec::new();
        let mut i: usize = 0;
        while i < MAX_TASKS
            invariant
                i <= MAX_TASKS,
                tasks@ == Seq::new(i as nat, |j: int| None::<Task>),
                statistics@.len() == i,
            decreases MAX_TASKS - i,
        {
            tasks.push(None);
            statistics.push(TaskStatistics { total_runs: 0, stack_usage: 0 });
            i = i + 1;
            proof {
                assert(tasks@ =~= Seq::new(i as nat, |j: int| None::<Task>));
            }
        }
        let mut semaphores: Vec<Option<Semaphore>> = Vec::new();
        let mut k: usize = 0;
        while k < MAX_SEMAPHORES
            invariant
                k <= MAX_SEMAPHORES,
                semaphores@ == Seq::new(k as nat, |j: int| None::<Semaphore>),
            decreases MAX_SEMAPHORES - k,
        {
            semaphores.push(None);
            k = k + 1;
            proof {
                assert(semaphores@ =~= Seq::new(k as nat, |j: int| None::<Semaphore>));
            }
        }
        proof {
            lemma_count_bound(tasks@, MAX_TASKS as int);
            assert(forall|j: int| 0 <= j < MAX_TASKS ==> tasks@[j] is None);
            lemma_all_free_count(tasks@, MAX_TASKS as int);
        }
        Scheduler {
            tasks,
            current_task: None,
            task_count: 0,
            tick_count: 0,
            reschedule_pending: false,
            idle_task_index: None,
            event_queue: EventQueue::new(),
            semaphores,
            running: false,
            next_task_id: 0,
            statistics,
        }
    }

    /// Every part of the scheduler but the task table, its count and its statistics is the
    /// same in `self` and `other`.
    pub open spec fn same_but_tasks(&self, other: &Scheduler) -> bool {
        &&& self.current() == other.current()
        &&& self.ticks() == other.ticks()
        &&& self.reschedule_requested() == other.reschedule_requested()
        &&& self.idle() == other.idle()
        &&& self.queue() == other.queue()
        &&& self.pool() == other.pool()
        &&& self.is_running() == other.is_running()
        &&& self.next_id() == other.next_id()
    }

    /// A task can be added: a slot is free and task ids are not used up. Ids are never
    /// reused, so after `u32::MAX` tasks no more can be added.
    pub open spec fn can_add_task(&self) -> bool {
        has_free_slot(self.slots()) && self.next_id() < u32::MAX
    }

    /// The scheduler is started and its Idle task is installed.
    pub open spec fn is_initialized(&self) -> bool {
        self.is_running() && self.idle() is Some
    }

    /// Installs a Ready task in the first free slot and returns the slot index, which is the
    /// task's handle. The task's deadline is its period. Fails when every slot is taken.
    pub fn add_task(&mut self, entry: u16, priority: TaskPriority, period_ms: u32) -> (r: Result<usize, SchedulerError>)
        requires
            old(self).wf(),
        ensures
            final(self).wf(),
            r is Ok <==> old(self).can_add_task(),
            r is Err ==> r == Err::<usize, SchedulerError>(SchedulerError::TaskLimitReached) && *final(self) == *old(self),
            r matches Ok(i) ==> {
                &&& is_first_free(old(self).slots(), i as int)
                &&& final(self).slots()[i as int] is Some
                &&& is_new_task(final(self).slots()[i as int]->Some_0, entry, priority.spec_level(), period_ms)
                &&& final(self).slots() == old(self).slots().update(i as int, final(self).slots()[i as int])
                &&& final(self).slots()[i as int]->Some_0.control.id == old(self).next_id()
                &&& final(self).next_id() == old(self).next_id() + 1
                &&& final(self).count() == old(self).count() + 1
                &&& final(self).current() == old(self).current()
                &&& final(self).ticks() == old(self).ticks()
                &&& final(self).reschedule_requested() == old(self).reschedule_requested()
                &&& final(self).idle() == old(self).idle()
                &&& final(self).queue() == old(self).queue()
                &&& final(self).pool() == old(self).pool()
                &&& final(self).is_running() == old(self).is_running()
            },
    {
        if self.next_task_id == u32::MAX {
            return Err(SchedulerError::TaskLimitReached);
        }
        let mut i: usize = 0;
        while i < MAX_TASKS
            invariant
                self.wf(),
                *self == *old(self),
                self.next_task_id < u32::MAX,
                i <= MAX_TASKS,
                forall|j: int| 0 <= j < i ==> self.tasks@[j] is Some,
            decreases MAX_TASKS - i,
        {
            let free = match &self.tasks[i] {
                Some(_) => false,
                None => true,
            };
            if free {
                let id = self.next_task_id;
                self.next_task_id = id + 1;
                let mut task = Task::new(id, priority.level(), "task", entry);
                task.set_deadline(period_ms);
                proof {
                    lemma_count_bound(self.tasks@, MAX_TASKS as int);
                    lemma_count_update(self.tasks@, i as int, Some(task), MAX_TASKS as int);
                }
                self.tasks.set(i, Some(task));
                self.task_count = self.task_count + 1;
                proof {
                    assert(is_first_free(old(self).slots(), i as int));
                    assert(self.slots() =~= old(self).slots().update(i as int, self.slots()[i as int]));
                }
                return Ok(i);
            }
            i = i + 1;
        }
        Err(SchedulerError::TaskLimitReached)
    }

    /// Frees the slot `task_id`. Fails with `TaskNotFound` when the slot is out of range,
    /// empty, or holds the Idle task, which is never removed. Removing the current task
    /// leaves no current task.
    pub fn remove_task(&mut self, task_id: usize) -> (r: Result<(), SchedulerError>)
        requires
            old(self).wf(),
        ensures
            final(self).wf(),
            r is Ok <==> (task_id < MAX_TASKS && old(self).slots()[task_id as int] is Some && old(self).idle()
                != Some(task_id)),
            r is Err ==> r == Err::<(), SchedulerError>(SchedulerError::TaskNotFound) && *final(self) == *old(self),
            r is Ok ==> {
                &&& final(self).slots() == old(self).slots().update(task_id as int, None)
                &&& final(self).count() == old(self).count() - 1
                &&& final(self).current() == if old(self).current() == Some(task_id) {
                    None
                } else {
                    old(self).current()
                }
                &&& final(self).ticks() == old(self).ticks()
                &&& final(self).reschedule_requested() == old(self).reschedule_requested()
                &&& final(self).idle() == old(self).idle()
                &&& final(self).queue() == old(self).queue()
                &&& final(self).pool() == old(self).pool()
                &&& final(self).is_running() == old(self).is_running()
                &&& final(self).next_id() == old(self).next_id()
            },
    {
        if task_id >= MAX_TASKS {
            return Err(SchedulerError::TaskNotFound);
        }
        let occupied = match &self.tasks[task_id] {
            Some(_) => true,
            None => false,
        };
        let is_idle = match self.idle_task_index {
            Some(k) => k == task_id,
            None => false,
        };
        if !occupied || is_idle {
            return Err(SchedulerError::TaskNotFound);
        }
        proof {
            lemma_count_update(self.tasks@, task_id as int, None, MAX_TASKS as int);
        }
        self.tasks.set(task_id, None);
        self.task_count = self.task_count - 1;
        let was_current = match self.current_task {
            Some(c) => c == task_id,
            None => false,
        };
        if was_current {
            self.current_task = None;
        }
        Ok(())
    }

    /// Starts the scheduler: installs the Idle task, whose body begins at `idle_entry`, and
    /// marks the scheduler running. Fails with `AlreadyRunning` on a second call, and with
    /// `TaskLimitReached` when no slot is free for the Idle task.
    pub fn init(&mut self, idle_entry: u16) -> (r: Result<(), SchedulerError>)
        requires
            old(self).wf(),
        ensures
            final(self).wf(),
            old(self).is_running() ==> r == Err::<(), SchedulerError>(SchedulerError::AlreadyRunning),
            !old(self).is_running() && !old(self).can_add_task() ==> r == Err::<(), SchedulerError>(
                SchedulerError::TaskLimitReached),
            r is Ok <==> !old(self).is_running() && old(self).can_add_task(),
            r is Err ==> *final(self) == *old(self),
            r is Ok ==> {
                &&& final(self).is_initialized()
                &&& is_first_free(old(self).slots(), final(self).idle()->Some_0 as int)
                &&& final(self).slots()[final(self).idle()->Some_0 as int] is Some
                &&& is_new_task(final(self).slots()[final(self).idle()->Some_0 as int]->Some_0, idle_entry, 0, 0)
                &&& final(self).slots()[final(self).idle()->Some_0 as int]->Some_0.control.id == old(self).next_id()
                &&& final(self).next_id() == old(self).next_id() + 1
                &&& final(self).slots() == old(self).slots().update(
                    final(self).idle()->Some_0 as int,
                    final(self).slots()[final(self).idle()->Some_0 as int],
                )
                &&& final(self).count() == old(self).count() + 1
                &&& final(self).current() == old(self).current()
                &&& final(self).ticks() == old(self).ticks()
                &&& final(self).queue() == old(self).queue()
                &&& final(self).pool() == old(self).pool()
            },
    {
        if self.running {
            return Err(SchedulerError::AlreadyRunning);
        }
        match self.add_task(idle_entry, TaskPriority::Idle, 0) {
            Ok(k) => {
                self.idle_task_index = Some(k);
                self.running = true;
                Ok(())
            },
            Err(e) => Err(e),
        }
    }

    /// The task to run next: the Ready task of greatest priority, the lowest slot among
    /// equals, or the Idle task when no other task is Ready.
    pub fn schedule_next_task(&self) -> (r: Option<usize>)
        requires
            self.wf(),
        ensures
            is_selection(self.slots(), self.idle(), r),
    {
        let mut selected: Option<usize> = None;
        let mut best: u8 = 0;
        let mut i: usize = 0;
        while i < MAX_TASKS
            invariant
                self.wf(),
                i <= MAX_TASKS,
                selected is None ==> forall|j: int| 0 <= j < i ==> !is_candidate(self.tasks@, self.idle_task_index, j),
                selected matches Some(k) ==> {
                    &&& k < i
                    &&& is_candidate(self.tasks@, self.idle_task_index, k as int)
                    &&& priority_at(self.tasks@, k as int) == best
                    &&& forall|j: int|
                        0 <= j < i && #[trigger] is_candidate(self.tasks@, self.idle_task_index, j) ==> priority_at(
                            self.tasks@,
                            j,
                        ) < best || (priority_at(self.tasks@, j) == best && k <= j)
                },
            decreases MAX_TASKS - i,
        {
            let not_idle = match self.idle_task_index {
                Some(k) => k != i,
                None => true,
            };
            match &self.tasks[i] {
                Some(t) => {
                    if not_idle && t.control.state == TaskState::Ready && (selected.is_none()
                        || t.control.priority > best) {
                        selected = Some(i);
                        best = t.control.priority;
                    }
                },
                None => {},
            }
            i = i + 1;
        }
        match selected {
            Some(k) => {
                proof {
                    assert(is_best(self.tasks@, self.idle_task_index, k as int));
                }
                Some(k)
            },
            None => {
                proof {
                    assert(!has_candidate(self.tasks@, self.idle_task_index));
                }
                self.idle_task_index
            },
        }
    }

    /// Replaces the control block of the task in slot `i`, keeping its stack pointer.
    fn set_control(&mut self, i: usize, c: TaskControl)
        requires
            old(self).wf(),
            i < MAX_TASKS,
            old(self).tasks@[i as int] is Some,
            c.stack_ptr == old(self).tasks@[i as int]->Some_0.control.stack_ptr,
            c.stack_size == STACK_SIZE,
            c.priority == old(self).tasks@[i as int]->Some_0.control.priority,
            c.state == TaskState::Running ==> old(self).current_task == Some(i),
            c.id == old(self).tasks@[i as int]->Some_0.control.id,
        ensures
            final(self).wf(),
            final(self).tasks@ == old(self).tasks@.update(i as int, Some(with_control(old(self).tasks@[i as int]->Some_0, c))),
            final(self).task_count == old(self).task_count,
            final(self).statistics == old(self).statistics,
            final(self).next_task_id == old(self).next_task_id,
            final(self).same_but_tasks(old(self)),
    {
        proof {
            lemma_count_update(self.tasks@, i as int, Some(with_control(self.tasks@[i as int]->Some_0, c)), MAX_TASKS as int);
        }
        match &mut self.tasks[i] {
            Some(t) => {
                t.control = c;
            },
            None => {},
        }
        proof {
            assert(self.tasks@ =~= old(self).tasks@.update(i as int, Some(with_control(old(self).tasks@[i as int]->Some_0, c))));
        }
    }

    /// Makes Ready every Blocked task that `reason` wakes.
    pub fn wake_tasks(&mut self, reason: WakeReason)
        requires
            old(self).wf(),
        ensures
            final(self).wf(),
            final(self).slots() == wake_all(old(self).slots(), reason, old(self).ticks()),
            final(self).count() == old(self).count(),
            final(self).same_but_tasks(old(self)),
            forall|j: int| #[trigger] final(self).runs(j) == old(self).runs(j),
    {
        let now = self.tick_count;
        let mut i: usize = 0;
        while i < MAX_TASKS
            invariant
                self.wf(),
                i <= MAX_TASKS,
                now == old(self).tick_count,
                self.task_count == old(self).task_count,
                self.statistics == old(self).statistics,
                self.same_but_tasks(old(self)),
                forall|j: int| 0 <= j < i ==> self.tasks@[j] == wake_slot(old(self).tasks@[j], reason, now),
                forall|j: int| i <= j < MAX_TASKS ==> self.tasks@[j] == old(self).tasks@[j],
            decreases MAX_TASKS - i,
        {
            let woken = match &self.tasks[i] {
                Some(t) => {
                    let c = t.control;
                    let hit = match reason {
                        WakeReason::EventPosted(et) => match c.waiting_event {
                            Some(w) => w == et,
                            None => false,
                        },
                        WakeReason::SemaphoreReleased(id) => match c.waiting_semaphore {
                            Some(w) => w == id,
                            None => false,
                        },
                        WakeReason::WaitExpired => c.waiting_event.is_some() && now.wrapping_sub(c.wait_start)
                            >= c.wait_timeout,
                    };
                    if c.state == TaskState::Blocked && hit {
                        let nc = match reason {
                            WakeReason::SemaphoreReleased(_) => TaskControl {
                                state: TaskState::Ready,
                                waiting_semaphore: None,
                                ..c
                            },
                            _ => TaskControl { state: TaskState::Ready, ..c },
                        };
                        Some(nc)
                    } else {
                        None
                    }
                },
                None => None,
            };
            match woken {
                Some(nc) => {
                    self.set_control(i, nc);
                },
                None => {},
            }
            i = i + 1;
        }
        proof {
            assert(self.slots() =~= wake_all(old(self).slots(), reason, old(self).ticks()));
        }
    }

    /// One timer tick: advances the tick counter, wrapping at its width, and requests a
    /// reschedule. The task table is left alone.
    pub fn tick(&mut self)
        requires
            old(self).wf(),
        ensures
            final(self).wf(),
            final(self).ticks() == old(self).ticks().wrapping_add(1),
            final(self).reschedule_requested(),
            final(self).slots() == old(self).slots(),
            final(self).count() == old(self).count(),
            final(self).current() == old(self).current(),
            final(self).idle() == old(self).idle(),
            final(self).queue() == old(self).queue(),
            final(self).pool() == old(self).pool(),
            final(self).is_running() == old(self).is_running(),
            final(self).next_id() == old(self).next_id(),
    {
        self.tick_count = self.tick_count.wrapping_add(1);
        self.reschedule_pending = true;
    }

    /// Counts one more run of the task in slot `i` and records its stack usage.
    fn update_task_statistics(&mut self, i: usize)
        requires
            old(self).wf(),
            i < MAX_TASKS,
        ensures
            final(self).wf(),
            final(self).tasks == old(self).tasks,
            final(self).task_count == old(self).task_count,
            final(self).same_but_tasks(old(self)),
            final(self).runs(i as int) == old(self).runs(i as int).wrapping_add(1),
            forall|j: int| 0 <= j < MAX_TASKS && j != i ==> final(self).runs(j) == old(self).runs(j),
    {
        let usage: u16 = match &self.tasks[i] {
            Some(t) => {
                proof {
                    crate::task::lemma_nonzero_count_bound(t.stack@, STACK_SIZE as int);
                }
                t.get_stack_usage() as u16
            },
            None => self.statistics[i].stack_usage,
        };
        let runs = self.statistics[i].total_runs.wrapping_add(1);
        self.statistics.set(i, TaskStatistics { total_runs: runs, stack_usage: usage });
    }

    /// Makes the task in slot `next` the Running, current task. The previous task's
    /// context is saved first and its statistics updated.
    fn switch_task(&mut self, next: usize)
        requires
            old(self).wf(),
            next < MAX_TASKS,
            old(self).tasks@[next as int] is Some,
        ensures
            final(self).wf(),
            final(self).tasks@ == dispatched(preempt(old(self).tasks@, old(self).current_task), next as int, old(self).tick_count),
            only_running(final(self).tasks@, next as int),
            final(self).task_count == old(self).task_count,
            final(self).current_task == Some(next),
            final(self).next_task_id == old(self).next_task_id,
            final(self).tick_count == old(self).tick_count,
            final(self).reschedule_pending == old(self).reschedule_pending,
            final(self).idle_task_index == old(self).idle_task_index,
            final(self).event_queue@ == old(self).event_queue@,
            final(self).semaphores@ == old(self).semaphores@,
            final(self).running == old(self).running,
            forall|j: int|
                0 <= j < MAX_TASKS ==> #[trigger] final(self).runs(j) == if old(self).current_task == Some(j as usize)
                    && j != next {
                    old(self).runs(j).wrapping_add(1)
                } else {
                    old(self).runs(j)
                },
    {
        match self.current_task {
            Some(c) => {
                if c != next {
                    self.update_task_statistics(c);
                }
            },
            None => {},
        }
        self.preempt_current();
        self.current_task = Some(next);
        let c = match &self.tasks[next] {
            Some(t) => t.control,
            None => {
                proof {
                    assert(false);
                }
                return;
            },
        };
        let now = self.tick_count;
        self.set_control(next, TaskControl { state: TaskState::Running, last_wake_time: now, ..c });
    }

    /// Puts the Running current task back to Ready, so that it competes again.
    fn preempt_current(&mut self)
        requires
            old(self).wf(),
        ensures
            final(self).wf(),
            final(self).tasks@ == preempt(old(self).tasks@, old(self).current_task),
            final(self).task_count == old(self).task_count,
            final(self).same_but_tasks(old(self)),
            final(self).statistics == old(self).statistics,
            none_running(final(self).tasks@),
    {
        match self.current_task {
            Some(c) => {
                let running = match &self.tasks[c] {
                    Some(t) => if t.control.state == TaskState::Running {
                        Some(t.control)
                    } else {
                        None
                    },
                    None => None,
                };
                match running {
                    Some(ctl) => {
                        self.set_control(c, TaskControl { state: TaskState::Ready, ..ctl });
                    },
                    None => {},
                }
            },
            None => {},
        }
    }

    /// One pass of the dispatch loop: wakes the tasks whose event wait has run out, puts the
    /// Running task back among the Ready ones, selects by the scheduling rule and dispatches
    /// the selected task. Returns it; `None` only before `init`, when nothing is Ready.
    pub fn dispatch(&mut self) -> (r: Option<usize>)
        requires
            old(self).wf(),
        ensures
            final(self).wf(),
            ({
                let p = preempt(wake_all(old(self).slots(), WakeReason::WaitExpired, old(self).ticks()), old(self).current());
                &&& is_selection(p, old(self).idle(), r)
                &&& r matches Some(n) ==> final(self).current() == Some(n) && final(self).slots() == dispatched(
                    p,
                    n as int,
                    old(self).ticks(),
                )
                &&& r matches Some(n) ==> only_running(final(self).slots(), n as int)
                &&& r is None ==> final(self).current() == old(self).current() && final(self).slots() == p
            }),
            old(self).is_initialized() ==> r is Some,
            forall|j: int|
                0 <= j < MAX_TASKS ==> #[trigger] final(self).runs(j) == if r is Some && old(self).current() == Some(
                    j as usize,
                ) && r != Some(j as usize) {
                    old(self).runs(j).wrapping_add(1)
                } else {
                    old(self).runs(j)
                },
            !final(self).reschedule_requested(),
            final(self).count() == old(self).count(),
            final(self).ticks() == old(self).ticks(),
            final(self).idle() == old(self).idle(),
            final(self).queue() == old(self).queue(),
            final(self).pool() == old(self).pool(),
            final(self).is_running() == old(self).is_running(),
            final(self).next_id() == old(self).next_id(),
    {
        self.wake_tasks(WakeReason::WaitExpired);
        let ghost mid = *self;
        self.reschedule_pending = false;
        self.preempt_current();
        proof {
            assert forall|j: int| #[trigger] self.runs(j) == old(self).runs(j) by {
                assert(mid.runs(j) == old(self).runs(j));
                assert(self.statistics == mid.statistics);
            }
        }
        let next = self.schedule_next_task();
        match next {
            Some(n) => {
                proof {
                    if has_candidate(self.tasks@, self.idle_task_index) {
                        assert(is_candidate(self.tasks@, self.idle_task_index, n as int));
                    }
                }
                self.switch_task(n);
                Some(n)
            },
            None => None,
        }
    }

    /// Records the stack pointer at which the context of the task in slot `task_id` was
    /// saved.
    pub fn save_context(&mut self, task_id: usize, sp: usize) -> (r: Result<(), SchedulerError>)
        requires
            old(self).wf(),
            sp <= STACK_SIZE,
        ensures
            final(self).wf(),
            r is Ok <==> task_id < MAX_TASKS && old(self).slots()[task_id as int] is Some,
            r is Err ==> r == Err::<(), SchedulerError>(SchedulerError::TaskNotFound) && *final(self) == *old(self),
            r is Ok ==> final(self).slots() == old(self).slots().update(
                task_id as int,
                Some(
                    with_control(
                        old(self).slots()[task_id as int]->Some_0,
                        TaskControl { stack_ptr: sp, ..old(self).slots()[task_id as int]->Some_0.control },
                    ),
                ),
            ) && final(self).count() == old(self).count() && final(self).same_but_tasks(old(self)),
    {
        if task_id >= MAX_TASKS {
            return Err(SchedulerError::TaskNotFound);
        }
        proof {
            if self.tasks@[task_id as int] is Some {
                lemma_count_update(
                    self.tasks@,
                    task_id as int,
                    Some(with_control(self.tasks@[task_id as int]->Some_0, TaskControl { stack_ptr: sp, ..self.tasks@[task_id as int]->Some_0.control })),
                    MAX_TASKS as int,
                );
            }
        }
        let occupied = match &self.tasks[task_id] {
            Some(_) => true,
            None => false,
        };
        if !occupied {
            return Err(SchedulerError::TaskNotFound);
        }
        match &mut self.tasks[task_id] {
            Some(t) => {
                t.save_context(sp);
            },
            None => {},
        }
        proof {
            assert(self.tasks@ =~= old(self).tasks@.update(
                task_id as int,
                Some(with_control(old(self).tasks@[task_id as int]->Some_0, TaskControl { stack_ptr: sp, ..old(self).tasks@[task_id as int]->Some_0.control })),
            ));
        }
        Ok(())
    }

    /// The saved stack pointer of the task in slot `task_id`, from which its context is
    /// restored.
    pub fn load_context(&self, task_id: usize) -> (r: Option<usize>)
        requires
            self.wf(),
        ensures
            r is Some <==> task_id < MAX_TASKS && self.slots()[task_id as int] is Some,
            r is Some ==> r == Some(self.slots()[task_id as int]->Some_0.control.stack_ptr),
    {
        if task_id >= MAX_TASKS {
            return None;
        }
        match &self.tasks[task_id] {
            Some(t) => Some(t.get_stack_ptr()),
            None => None,
        }
    }

    /// Gives the current task, if there is one, the control block `f`.
    fn set_current_control(&mut self, f: TaskControl)
        requires
            old(self).wf(),
            current_control(old(self).tasks@, old(self).current_task) matches Some(c) && f.stack_ptr == c.stack_ptr
                && f.stack_size == c.stack_size && f.priority == c.priority && f.id == c.id,
        ensures
            final(self).wf(),
            final(self).tasks@ == with_current_control(old(self).tasks@, old(self).current_task, f),
            final(self).task_count == old(self).task_count,
            final(self).same_but_tasks(old(self)),
    {
        match self.current_task {
            Some(c) => {
                proof {
                    assert(self.tasks@[c as int]->Some_0.wf());
                }
                self.set_control(c, f);
            },
            None => {},
        }
    }

    /// Control block of the current task, when there is one and it is not the Idle task.
    fn blockable_task_control(&self) -> (r: Option<TaskControl>)
        requires
            self.wf(),
        ensures
            r == blockable_control(self.tasks@, self.current_task, self.idle_task_index),
            r matches Some(c) ==> c.stack_size == STACK_SIZE,
    {
        let is_idle = match (self.current_task, self.idle_task_index) {
            (Some(c), Some(k)) => c == k,
            _ => false,
        };
        if is_idle {
            return None;
        }
        match self.current_task {
            Some(c) => match &self.tasks[c] {
                Some(t) => Some(t.control),
                None => None,
            },
            None => None,
        }
    }

    /// Queues an event of `event_type` stamped with the current tick and makes Ready the
    /// tasks blocked waiting for that type. Fails with `EventQueueFull`, changing nothing,
    /// when the queue is full.
    pub fn post_event(&mut self, event_type: EventType, data: u32) -> (r: Result<(), SchedulerError>)
        requires
            old(self).wf(),
        ensures
            final(self).wf(),
            r is Ok <==> old(self).queue().len() < crate::event::EVENT_QUEUE_CAPACITY,
            r is Err ==> r == Err::<(), SchedulerError>(SchedulerError::EventQueueFull) && *final(self) == *old(self),
            r is Ok ==> {
                &&& final(self).queue() == old(self).queue().push(
                    Event { event_type, data, timestamp: old(self).ticks() },
                )
                &&& final(self).slots() == wake_all(old(self).slots(), WakeReason::EventPosted(event_type), old(self).ticks())
                &&& final(self).count() == old(self).count()
                &&& final(self).current() == old(self).current()
                &&& final(self).ticks() == old(self).ticks()
                &&& final(self).idle() == old(self).idle()
                &&& final(self).pool() == old(self).pool()
                &&& final(self).is_running() == old(self).is_running()
                &&& final(self).next_id() == old(self).next_id()
                &&& final(self).reschedule_requested() == old(self).reschedule_requested()
            },
    {
        if self.event_queue.is_full() {
            return Err(SchedulerError::EventQueueFull);
        }
        let event = Event::new(event_type, data, self.tick_count);
        self.event_queue.push(event);
        self.wake_tasks(WakeReason::EventPosted(event_type));
        Ok(())
    }

    /// Takes the oldest queued event of `event_type` for the current task.
    ///
    /// When none is queued: with a `timeout_ms` of 0, with no current task, or when the
    /// current task is the Idle task, which never blocks, the result is `Timeout` and nothing
    /// changes. Otherwise the current task is Blocked waiting for the
    /// type and `WouldBlock` is returned; it is made Ready when such an event is posted or
    /// when `timeout_ms` ticks have passed, and then calls again. A call that resumes a wait
    /// keeps the wait's start and timeout, and returns `Timeout` once they have run out.
    pub fn wait_for_event(&mut self, event_type: EventType, timeout_ms: u32) -> (r: Result<Event, SchedulerError>)
        requires
            old(self).wf(),
        ensures
            final(self).wf(),
            ({
                let q = old(self).queue();
                let k = first_of_type(q, event_type);
                let cc = blockable_control(old(self).slots(), old(self).current(), old(self).idle());
                let now = old(self).ticks();
                if k < q.len() {
                    &&& r == Ok::<Event, SchedulerError>(q[k])
                    &&& final(self).queue() == q.remove(k)
                    &&& final(self).slots() == if cc is Some {
                        with_current_control(old(self).slots(), old(self).current(), TaskControl { waiting_event: None, ..cc->Some_0 })
                    } else {
                        old(self).slots()
                    }
                } else if timeout_ms == 0 || cc is None {
                    &&& r == Err::<Event, SchedulerError>(SchedulerError::Timeout)
                    &&& *final(self) == *old(self)
                } else if cc->Some_0.waiting_event == Some(event_type) {
                    &&& final(self).queue() == q
                    &&& if ticks_between(cc->Some_0.wait_start, now) >= cc->Some_0.wait_timeout {
                        &&& r == Err::<Event, SchedulerError>(SchedulerError::Timeout)
                        &&& final(self).slots() == with_current_control(old(self).slots(), old(self).current(), TaskControl { waiting_event: None, ..cc->Some_0 })
                    } else {
                        &&& r == Err::<Event, SchedulerError>(SchedulerError::WouldBlock)
                        &&& final(self).slots() == with_current_control(old(self).slots(), old(self).current(), TaskControl { state: TaskState::Blocked, ..cc->Some_0 })
                    }
                } else {
                    &&& final(self).queue() == q
                    &&& r == Err::<Event, SchedulerError>(SchedulerError::WouldBlock)
                    &&& final(self).slots() == with_current_control(
                        old(self).slots(),
                        old(self).current(),
                        waiting_control(cc->Some_0, event_type, timeout_ms, now),
                    )
                }
            }),
            final(self).count() == old(self).count(),
            final(self).current() == old(self).current(),
            final(self).ticks() == old(self).ticks(),
            final(self).idle() == old(self).idle(),
            final(self).pool() == old(self).pool(),
            final(self).is_running() == old(self).is_running(),
            final(self).next_id() == old(self).next_id(),
            final(self).reschedule_requested() == old(self).reschedule_requested(),
    {
        proof {
            crate::event::lemma_first_of_type(self.event_queue@, event_type);
        }
        let cc = self.blockable_task_control();
        let found = self.event_queue.take_first(event_type);
        match found {
            Some(e) => {
                match cc {
                    Some(c) => {
                        self.set_current_control(TaskControl { waiting_event: None, ..c });
                    },
                    None => {},
                }
                return Ok(e);
            },
            None => {},
        }
        if timeout_ms == 0 {
            return Err(SchedulerError::Timeout);
        }
        let c = match cc {
            Some(c) => c,
            None => {
                return Err(SchedulerError::Timeout);
            },
        };
        let now = self.tick_count;
        let resumed = match c.waiting_event {
            Some(w) => w == event_type,
            None => false,
        };
        if resumed {
            if now.wrapping_sub(c.wait_start) >= c.wait_timeout {
                self.set_current_control(TaskControl { waiting_event: None, ..c });
                Err(SchedulerError::Timeout)
            } else {
                self.set_current_control(TaskControl { state: TaskState::Blocked, ..c });
                Err(SchedulerError::WouldBlock)
            }
        } else {
            self.set_current_control(
                TaskControl {
                    waiting_event: Some(event_type),
                    wait_start: now,
                    wait_timeout: timeout_ms,
                    state: TaskState::Blocked,
                    waiting_semaphore: None,
                    ..c
                },
            );
            Err(SchedulerError::WouldBlock)
        }
    }

    /// Takes a free slot of the semaphore pool for a semaphore with count `initial`.
    pub fn create_semaphore(&mut self, initial: u8) -> (r: Result<usize, SchedulerError>)
        requires
            old(self).wf(),
        ensures
            final(self).wf(),
            r is Ok <==> has_free_semaphore(old(self).pool()),
            r is Err ==> r == Err::<usize, SchedulerError>(SchedulerError::NoSemaphoresAvailable) && *final(self) == *old(self),
            r matches Ok(i) ==> {
                &&& is_first_free_semaphore(old(self).pool(), i as int)
                &&& final(self).pool() == old(self).pool().update(i as int, Some(Semaphore { count: initial }))
                &&& final(self).slots() == old(self).slots()
                &&& final(self).count() == old(self).count()
                &&& final(self).current() == old(self).current()
                &&& final(self).ticks() == old(self).ticks()
                &&& final(self).idle() == old(self).idle()
                &&& final(self).queue() == old(self).queue()
                &&& final(self).is_running() == old(self).is_running()
                &&& final(self).next_id() == old(self).next_id()
                &&& final(self).reschedule_requested() == old(self).reschedule_requested()
            },
    {
        let mut i: usize = 0;
        while i < MAX_SEMAPHORES
            invariant
                self.wf(),
                *self == *old(self),
                i <= MAX_SEMAPHORES,
                forall|j: int| 0 <= j < i ==> self.semaphores@[j] is Some,
            decreases MAX_SEMAPHORES - i,
        {
            let free = match &self.semaphores[i] {
                Some(_) => false,
                None => true,
            };
            if free {
                self.semaphores.set(i, Some(Semaphore::new(initial)));
                return Ok(i);
            }
            i = i + 1;
        }
        Err(SchedulerError::NoSemaphoresAvailable)
    }

    /// Takes one unit of semaphore `sem_id`. When none is available `SemaphoreLocked` is
    /// returned and the current task, unless it is the Idle task, which never blocks, is
    /// Blocked on the semaphore; it is made Ready by the next release and then tries again.
    pub fn semaphore_acquire(&mut self, sem_id: usize) -> (r: Result<(), SchedulerError>)
        requires
            old(self).wf(),
        ensures
            final(self).wf(),
            sem_id >= MAX_SEMAPHORES || old(self).pool()[sem_id as int] is None ==> r == Err::<(), SchedulerError>(
                SchedulerError::InvalidSemaphore) && *final(self) == *old(self),
            sem_id < MAX_SEMAPHORES && old(self).pool()[sem_id as int] is Some ==> {
                let sem = old(self).pool()[sem_id as int]->Some_0;
                let cc = blockable_control(old(self).slots(), old(self).current(), old(self).idle());
                if acquire_spec(sem).0 {
                    &&& r is Ok
                    &&& final(self).pool() == old(self).pool().update(sem_id as int, Some(acquire_spec(sem).1))
                    &&& final(self).slots() == old(self).slots()
                } else {
                    &&& r == Err::<(), SchedulerError>(SchedulerError::SemaphoreLocked)
                    &&& final(self).pool() == old(self).pool()
                    &&& final(self).slots() == if cc is Some {
                        with_current_control(
                            old(self).slots(),
                            old(self).current(),
                            TaskControl {
                                state: TaskState::Blocked,
                                waiting_semaphore: Some(sem_id),
                                waiting_event: None,
                                ..cc->Some_0
                            },
                        )
                    } else {
                        old(self).slots()
                    }
                }
            },
            final(self).count() == old(self).count(),
            final(self).current() == old(self).current(),
            final(self).ticks() == old(self).ticks(),
            final(self).idle() == old(self).idle(),
            final(self).queue() == old(self).queue(),
            final(self).is_running() == old(self).is_running(),
            final(self).next_id() == old(self).next_id(),
            final(self).reschedule_requested() == old(self).reschedule_requested(),
    {
        if sem_id >= MAX_SEMAPHORES {
            return Err(SchedulerError::InvalidSemaphore);
        }
        let mut sem = match &self.semaphores[sem_id] {
            Some(s) => *s,
            None => {
                return Err(SchedulerError::InvalidSemaphore);
            },
        };
        if sem.acquire() {
            self.semaphores.set(sem_id, Some(sem));
            Ok(())
        } else {
            match self.blockable_task_control() {
                Some(c) => {
                    self.set_current_control(
                        TaskControl { state: TaskState::Blocked, waiting_semaphore: Some(sem_id), waiting_event: None, ..c },
                    );
                },
                None => {},
            }
            Err(SchedulerError::SemaphoreLocked)
        }
    }

    /// Gives back one unit of semaphore `sem_id` and makes Ready the tasks blocked on it, and
    /// no others.
    pub fn semaphore_release(&mut self, sem_id: usize) -> (r: Result<(), SchedulerError>)
        requires
            old(self).wf(),
        ensures
            final(self).wf(),
            r is Ok <==> sem_id < MAX_SEMAPHORES && old(self).pool()[sem_id as int] is Some,
            r is Err ==> r == Err::<(), SchedulerError>(SchedulerError::InvalidSemaphore) && *final(self) == *old(self),
            r is Ok ==> {
                &&& final(self).pool() == old(self).pool().update(
                    sem_id as int,
                    Some(release_spec(old(self).pool()[sem_id as int]->Some_0)),
                )
                &&& final(self).slots() == wake_all(old(self).slots(), WakeReason::SemaphoreReleased(sem_id), old(self).ticks())
                &&& final(self).count() == old(self).count()
                &&& final(self).current() == old(self).current()
                &&& final(self).ticks() == old(self).ticks()
                &&& final(self).idle() == old(self).idle()
                &&& final(self).queue() == old(self).queue()
                &&& final(self).is_running() == old(self).is_running()
                &&& final(self).next_id() == old(self).next_id()
                &&& final(self).reschedule_requested() == old(self).reschedule_requested()
            },
    {
        if sem_id >= MAX_SEMAPHORES {
            return Err(SchedulerError::InvalidSemaphore);
        }
        let mut sem = match &self.semaphores[sem_id] {
            Some(s) => *s,
            None => {
                return Err(SchedulerError::InvalidSemaphore);
            },
        };
        sem.release();
        self.semaphores.set(sem_id, Some(sem));
        self.wake_tasks(WakeReason::SemaphoreReleased(sem_id));
        Ok(())
    }

    /// Suspends the task in slot `task_id` if it is Running; a Suspended task is never
    /// selected until it is resumed. The Idle task is never suspended: for it nothing
    /// changes.
    pub fn suspend_task(&mut self, task_id: usize) -> (r: Result<(), SchedulerError>)
        requires
            old(self).wf(),
        ensures
            final(self).wf(),
            r is Ok <==> task_id < MAX_TASKS && old(self).slots()[task_id as int] is Some,
            r is Err ==> r == Err::<(), SchedulerError>(SchedulerError::TaskNotFound) && *final(self) == *old(self),
            r is Ok && old(self).idle() == Some(task_id) ==> *final(self) == *old(self),
            r is Ok && old(self).idle() != Some(task_id) ==> {
                let c = old(self).slots()[task_id as int]->Some_0.control;
                &&& final(self).slots() == old(self).slots().update(
                    task_id as int,
                    Some(with_control(
                        old(self).slots()[task_id as int]->Some_0,
                        TaskControl {
                            state: if c.state == TaskState::Running { TaskState::Suspended } else { c.state },
                            ..c
                        },
                    )),
                )
                &&& final(self).count() == old(self).count()
                &&& final(self).same_but_tasks(old(self))
            },
    {
        if task_id >= MAX_TASKS {
            return Err(SchedulerError::TaskNotFound);
        }
        let c = match &self.tasks[task_id] {
            Some(t) => t.control,
            None => {
                return Err(SchedulerError::TaskNotFound);
            },
        };
        let is_idle = match self.idle_task_index {
            Some(k) => k == task_id,
            None => false,
        };
        if is_idle {
            return Ok(());
        }
        let state = if c.state == TaskState::Running { TaskState::Suspended } else { c.state };
        self.set_control(task_id, TaskControl { state, ..c });
        Ok(())
    }

    /// Makes the task in slot `task_id` Ready again if it is Suspended.
    pub fn resume_task(&mut self, task_id: usize) -> (r: Result<(), SchedulerError>)
        requires
            old(self).wf(),
        ensures
            final(self).wf(),
            r is Ok <==> task_id < MAX_TASKS && old(self).slots()[task_id as int] is Some,
            r is Err ==> r == Err::<(), SchedulerError>(SchedulerError::TaskNotFound) && *final(self) == *old(self),
            r is Ok ==> {
                let c = old(self).slots()[task_id as int]->Some_0.control;
                &&& final(self).slots() == old(self).slots().update(
                    task_id as int,
                    Some(with_control(
                        old(self).slots()[task_id as int]->Some_0,
                        TaskControl {
                            state: if c.state == TaskState::Suspended { TaskState::Ready } else { c.state },
                            ..c
                        },
                    )),
                )
                &&& final(self).count() == old(self).count()
                &&& final(self).same_but_tasks(old(self))
            },
    {
        if task_id >= MAX_TASKS {
            return Err(SchedulerError::TaskNotFound);
        }
        let c = match &self.tasks[task_id] {
            Some(t) => t.control,
            None => {
                return Err(SchedulerError::TaskNotFound);
            },
        };
        let state = if c.state == TaskState::Suspended { TaskState::Ready } else { c.state };
        self.set_control(task_id, TaskControl { state, ..c });
        Ok(())
    }

    pub fn current_task(&self) -> (r: Option<usize>)
        ensures
            r == self.current(),
    {
        self.current_task
    }

    pub fn idle_task_index(&self) -> (r: Option<usize>)
        ensures
            r == self.idle(),
    {
        self.idle_task_index
    }

    pub fn tick_count(&self) -> (r: u32)
        ensures
            r == self.ticks(),
    {
        self.tick_count
    }

    pub fn task_count(&self) -> (r: usize)
        ensures
            r == self.count(),
    {
        self.task_count
    }

    pub fn reschedule_pending(&self) -> (r: bool)
        ensures
            r == self.reschedule_requested(),
    {
        self.reschedule_pending
    }

    /// Number of events waiting in the queue.
    pub fn pending_events(&self) -> (r: usize)
        ensures
            r == self.queue().len(),
    {
        self.event_queue.len()
    }

    /// Control block of the task in slot `task_id`, if the slot is occupied.
    pub fn task_control(&self, task_id: usize) -> (r: Option<TaskControl>)
        requires
            self.wf(),
        ensures
            task_id < MAX_TASKS && self.slots()[task_id as int] is Some ==> r == Some(
                self.slots()[task_id as int]->Some_0.control,
            ),
            !(task_id < MAX_TASKS && self.slots()[task_id as int] is Some) ==> r is None,
    {
        if task_id >= MAX_TASKS {
            return None;
        }
        match &self.tasks[task_id] {
            Some(t) => Some(t.control),
            None => None,
        }
    }

    /// State of the task in slot `task_id`, if the slot is occupied.
    pub fn task_state(&self, task_id: usize) -> (r: Option<TaskState>)
        requires
            self.wf(),
        ensures
            task_id < MAX_TASKS && self.slots()[task_id as int] is Some ==> r == Some(
                self.slots()[task_id as int]->Some_0.control.state,
            ),
            !(task_id < MAX_TASKS && self.slots()[task_id as int] is Some) ==> r is None,
    {
        match self.task_control(task_id) {
            Some(c) => Some(c.state),
            None => None,
        }
    }

    /// Count of semaphore `sem_id`, if it has been created.
    pub fn semaphore_count(&self, sem_id: usize) -> (r: Option<u8>)
        requires
            self.wf(),
        ensures
            sem_id < MAX_SEMAPHORES && self.pool()[sem_id as int] is Some ==> r == Some(
                self.pool()[sem_id as int]->Some_0.count,
            ),
            !(sem_id < MAX_SEMAPHORES && self.pool()[sem_id as int] is Some) ==> r is None,
    {
        if sem_id >= MAX_SEMAPHORES {
            return None;
        }
        match &self.semaphores[sem_id] {
            Some(s) => Some(s.count),
            None => None,
        }
    }

    /// Number of times the task in slot `task_id` has been switched away from.
    pub fn task_runs(&self, task_id: usize) -> (r: Option<u32>)
        requires
            self.wf(),
        ensures
            task_id < MAX_TASKS ==> r == Some(self.runs(task_id as int)),
            task_id >= MAX_TASKS ==> r is None,
    {
        if task_id >= MAX_TASKS {
            return None;
        }
        Some(self.statistics[task_id].total_runs)
    }
}

/// Collects the parameters of a task and installs it in a scheduler.
#[derive(Clone, Copy, PartialEq, Eq, Structural, Debug)]
pub struct TaskBuilder {
    /// Entry address of the task body; none until one is given.
    pub function: Option<u16>,
    pub priority: TaskPriority,
    pub period_ms: u32,
}

impl TaskBuilder {
    /// No entry point, Normal priority, a period of one second.
    pub fn new() -> (r: TaskBuilder)
        ensures
            r == (TaskBuilder { function: None, priority: TaskPriority::Normal, period_ms: 1000 }),
    {
        TaskBuilder { function: None, priority: TaskPriority::Normal, period_ms: 1000 }
    }

    pub fn function(self, function: u16) -> (r: TaskBuilder)
        ensures
            r == (TaskBuilder { function: Some(function), ..self }),
    {
        TaskBuilder { function: Some(function), ..self }
    }

    pub fn priority(self, priority: TaskPriority) -> (r: TaskBuilder)
        ensures
            r == (TaskBuilder { priority, ..self }),
    {
        TaskBuilder { priority, ..self }
    }

    pub fn period(self, period_ms: u32) -> (r: TaskBuilder)
        ensures
            r == (TaskBuilder { period_ms, ..self }),
    {
        TaskBuilder { period_ms, ..self }
    }

    /// Adds the task to `scheduler`; false when no entry point was given or the table is
    /// full.
    pub fn build(self, scheduler: &mut Scheduler) -> (r: bool)
        requires
            old(scheduler).wf(),
        ensures
            final(scheduler).wf(),
            r == (self.function is Some && old(scheduler).can_add_task()),
            !r ==> *final(scheduler) == *old(scheduler),
            r ==> exists|i: int|
                #[trigger] is_first_free(old(scheduler).slots(), i) && final(scheduler).slots()[i] is Some
                    && is_new_task(
                    final(scheduler).slots()[i]->Some_0,
                    self.function->Some_0,
                    self.priority.spec_level(),
                    self.period_ms,
                ) && final(scheduler).slots() == old(scheduler).slots().update(i, final(scheduler).slots()[i])
                    && final(scheduler).count() == old(scheduler).count() + 1,
    {
        match self.function {
            Some(entry) => match scheduler.add_task(entry, self.priority, self.period_ms) {
                Ok(i) => {
                    assert(is_first_free(old(scheduler).slots(), i as int));
                    true
                },
                Err(_) => false,
            },
            None => false,
        }
    }
}

impl Default for TaskBuilder {
    fn default() -> (r: TaskBuilder)
        ensures
            r == (TaskBuilder { function: None, priority: TaskPriority::Normal, period_ms: 1000 }),
    {
        TaskBuilder::new()
    }
}

/// The table is full exactly when it holds `MAX_TASKS` tasks: adding then fails, and
/// after a removal there is a free slot again.
pub proof fn lemma_task_limit(s: Scheduler)
    requires
        s.wf(),
    ensures
        has_free_slot(s.slots()) <==> s.count() < MAX_TASKS,
        s.count() <= MAX_TASKS,
{
    lemma_count_bound(s.slots(), MAX_TASKS as int);
    if s.count() < MAX_TASKS {
        let j = choose|j: int| 0 <= j < MAX_TASKS && !(s.slots()[j] is Some);
        assert(s.slots()[j] is None);
    }
}

/// What a well-formed scheduler guarantees: the table and the pool have their fixed sizes,
/// the current task and the Idle task lie in the table, the Idle task is installed with
/// the lowest priority, and a Running task is always the current one, so at most one task
/// runs.
pub proof fn lemma_wf_facts(s: Scheduler)
    requires
        s.wf(),
    ensures
        s.slots().len() == MAX_TASKS,
        s.pool().len() == MAX_SEMAPHORES,
        s.current() matches Some(c) ==> c < MAX_TASKS,
        s.idle() matches Some(k) ==> k < MAX_TASKS && s.slots()[k as int] is Some
            && s.slots()[k as int]->Some_0.control.priority == 0,
        s.is_running() ==> s.idle() is Some,
        forall|i: int|
            0 <= i < MAX_TASKS && #[trigger] s.slots()[i] is Some && s.slots()[i]->Some_0.control.state
                == TaskState::Running ==> s.current() == Some(i as usize),
        forall|i: int|
            0 <= i < MAX_TASKS && #[trigger] s.slots()[i] is Some ==> s.slots()[i]->Some_0.control.id < s.next_id(),
{
}

/// A task added to a well-formed scheduler gets an id that no task in the table has:
/// every id in the table is below `next_id()`, which the new task takes and which only
/// grows, so ids are never handed out twice.
pub proof fn lemma_new_id_is_fresh(s: Scheduler, i: int)
    requires
        s.wf(),
        0 <= i < MAX_TASKS,
        s.slots()[i] is Some,
    ensures
        s.slots()[i]->Some_0.control.id != s.next_id(),
{
}

/// Among Ready tasks, one whose priority exceeds that of every other is the one selected.
pub proof fn lemma_highest_priority_selected(s: Seq<Option<Task>>, idle: Option<usize>, i: int, r: Option<usize>)
    requires
        is_candidate(s, idle, i),
        forall|j: int| is_candidate(s, idle, j) && j != i ==> priority_at(s, j) < priority_at(s, i),
        is_selection(s, idle, r),
    ensures
        r == Some(i as usize),
{
    let k = r->Some_0 as int;
    assert(is_candidate(s, idle, i));
    if k != i {
        assert(priority_at(s, k) < priority_at(s, i));
    }
}

/// Of Ready tasks that share the greatest priority, the one in the lowest slot is selected.
pub proof fn lemma_tie_goes_to_lower_slot(s: Seq<Option<Task>>, idle: Option<usize>, i: int, j: int, r: Option<usize>)
    requires
        s.len() == MAX_TASKS,
        is_candidate(s, idle, i),
        is_candidate(s, idle, j),
        i < j,
        priority_at(s, i) == priority_at(s, j),
        forall|k: int| #[trigger] is_candidate(s, idle, k) ==> priority_at(s, k) <= priority_at(s, i),
        is_selection(s, idle, r),
    ensures
        r != Some(j as usize),
        r matches Some(k) && k <= i,
{
    let k = r->Some_0 as int;
    assert(is_candidate(s, idle, k));
    assert(is_candidate(s, idle, i));
    assert(k <= i);
}

/// The selection is determined by the table: two selections from one table agree.
pub proof fn lemma_selection_deterministic(s: Seq<Option<Task>>, idle: Option<usize>, r1: Option<usize>, r2: Option<usize>)
    requires
        is_selection(s, idle, r1),
        is_selection(s, idle, r2),
    ensures
        r1 == r2,
{
    if has_candidate(s, idle) {
        let a = r1->Some_0 as int;
        let b = r2->Some_0 as int;
        assert(is_candidate(s, idle, a));
        assert(is_candidate(s, idle, b));
    }
}

/// A task that is not Ready (Blocked, Suspended or Running) is never selected, whatever
/// its priority, unless it is the Idle task.
pub proof fn lemma_only_ready_tasks_selected(s: Seq<Option<Task>>, idle: Option<usize>, i: int, r: Option<usize>)
    requires
        s.len() == MAX_TASKS,
        0 <= i < MAX_TASKS,
        s[i] is Some,
        s[i]->Some_0.control.state != TaskState::Ready,
        idle != Some(i as usize),
        is_selection(s, idle, r),
    ensures
        r != Some(i as usize),
{
    if has_candidate(s, idle) {
        assert(is_candidate(s, idle, r->Some_0 as int));
    }
}

/// At each dispatch, a task that is Ready, or Running as the current task, is chosen over
/// any task of lower priority: `dispatch` selects from the table with the Running task put
/// back among the Ready ones.
pub proof fn lemma_higher_priority_keeps_precedence(
    s: Seq<Option<Task>>,
    idle: Option<usize>,
    cur: Option<usize>,
    a: int,
    b: int,
    r: Option<usize>,
)
    requires
        s.len() == MAX_TASKS,
        0 <= a < MAX_TASKS,
        0 <= b < MAX_TASKS,
        idle != Some(a as usize),
        s[a] is Some,
        s[b] is Some,
        s[a]->Some_0.control.state == TaskState::Ready || (s[a]->Some_0.control.state == TaskState::Running
            && cur == Some(a as usize)),
        s[b]->Some_0.control.priority < s[a]->Some_0.control.priority,
        is_selection(preempt(s, cur), idle, r),
    ensures
        r != Some(b as usize),
{
    let p = preempt(s, cur);
    assert(p[a] is Some && p[a]->Some_0.control.state == TaskState::Ready);
    assert(is_candidate(p, idle, a));
    assert(p[b] is Some && p[b]->Some_0.control.priority == s[b]->Some_0.control.priority);
    assert(priority_at(p, a) == s[a]->Some_0.control.priority);
    let k = r->Some_0 as int;
    assert(is_candidate(p, idle, k));
}

/// With no Ready task, a started scheduler selects the Idle task, never nothing.
pub proof fn lemma_idle_when_nothing_ready(s: Scheduler, r: Option<usize>)
    requires
        s.wf(),
        s.is_running(),
        forall|i: int| 0 <= i < MAX_TASKS && #[trigger] s.slots()[i] is Some ==> s.slots()[i]->Some_0.control.state
            != TaskState::Ready,
        is_selection(s.slots(), s.idle(), r),
    ensures
        r is Some,
        r == s.idle(),
{
    assert(!has_candidate(s.slots(), s.idle()));
}

proof fn lemma_all_free_count(s: Seq<Option<Task>>, n: int)
    requires
        0 <= n <= s.len(),
        forall|j: int| 0 <= j < n ==> s[j] is None,
    ensures
        occupied_count(s, n) == 0,
    decreases n,
{
    if n > 0 {
        lemma_all_free_count(s, n - 1);
    }
}

} // verus!

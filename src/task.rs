use vstd::prelude::*;
use crate::event::EventType;

verus! {

/// Bytes in each task's private stack.
pub const STACK_SIZE: usize = 512;

/// General registers saved in a context frame.
pub const REGISTER_COUNT: usize = 32;

/// Bytes of a saved context frame: the return address (two bytes), the status register and
/// the general registers.
pub const CONTEXT_FRAME_SIZE: usize = 35;

/// Global interrupt enable bit of the status register.
pub const SREG_INTERRUPT_ENABLE: u8 = 0x80;

#[derive(Clone, Copy, PartialEq, Eq, Structural, Debug)]
pub enum TaskState {
    Ready,
    Running,
    Blocked,
    Suspended,
}

/// A task's identity, scheduling state and bookkeeping.
#[derive(Clone, Copy, PartialEq, Eq, Structural, Debug)]
pub struct TaskControl {
    /// Unique for the scheduler's lifetime: ids are handed out in increasing order.
    pub id: u32,
    /// Saved stack pointer, as an offset from the base of the task's stack.
    pub stack_ptr: usize,
    pub stack_size: usize,
    pub state: TaskState,
    pub priority: u8,
    pub waiting_event: Option<EventType>,
    /// Tick at which the current event wait started.
    pub wait_start: u32,
    /// Ticks the current event wait may last.
    pub wait_timeout: u32,
    /// Semaphore pool slot the task is blocked on, if any.
    pub waiting_semaphore: Option<usize>,
    pub last_wake_time: u32,
    pub deadline_ms: u32,
}

/// The machine context that the restore routine loads: where execution continues, the status
/// register, and the general registers in the order the routine pops them.
pub struct MachineContext {
    pub program_counter: u16,
    pub status_reg: u8,
    pub registers: Vec<u8>,
}

/// A task control block together with the task's private stack.
pub struct Task {
    pub control: TaskControl,
    pub name: &'static str,
    pub stack: Vec<u8>,
}

/// Ticks from `from` to `to` on a counter that wraps at 2^32.
pub open spec fn ticks_between(from: u32, to: u32) -> int {
    if to >= from {
        to - from
    } else {
        to + 0x1_0000_0000 - from
    }
}

/// Signed distance from `from` to `to` on a counter that wraps at 2^32: the wrapped
/// difference read as a 32-bit two's-complement number, so that a `to` just before `from`
/// counts as earlier, not as almost 2^32 ticks later.
pub open spec fn signed_ticks_between(from: u32, to: u32) -> int {
    if ticks_between(from, to) < 0x8000_0000 {
        ticks_between(from, to)
    } else {
        ticks_between(from, to) - 0x1_0000_0000
    }
}

/// Program counter stored in the frame at `sp`: high byte above the status register, low
/// byte on top of it.
pub open spec fn frame_pc(stack: Seq<u8>, sp: int) -> u16 {
    (stack[sp + REGISTER_COUNT + 1] as int * 256 + stack[sp + REGISTER_COUNT + 2] as int) as u16
}

pub open spec fn frame_sreg(stack: Seq<u8>, sp: int) -> u8 {
    stack[sp + REGISTER_COUNT]
}

pub open spec fn frame_registers(stack: Seq<u8>, sp: int) -> Seq<u8> {
    stack.subrange(sp, sp + REGISTER_COUNT)
}

/// The stack of a task that has not run yet: all zero but for the frame on top, which
/// holds `entry` as return address and the status register with interrupts enabled.
pub open spec fn initial_stack(entry: u16) -> Seq<u8> {
    Seq::new(
        STACK_SIZE as nat,
        |i: int|
            if i == STACK_SIZE - 1 {
                (entry % 256) as u8
            } else if i == STACK_SIZE - 2 {
                (entry / 256) as u8
            } else if i == STACK_SIZE - 3 {
                SREG_INTERRUPT_ENABLE
            } else {
                0u8
            },
    )
}

/// Number of nonzero bytes among the first `n` of `s`.
pub open spec fn nonzero_count(s: Seq<u8>, n: int) -> nat
    decreases n,
{
    if n <= 0 {
        0
    } else {
        nonzero_count(s, n - 1) + if s[n - 1] != 0 { 1nat } else { 0nat }
    }
}

pub proof fn lemma_nonzero_count_bound(s: Seq<u8>, n: int)
    requires
        0 <= n,
    ensures
        nonzero_count(s, n) <= n,
    decreases n,
{
    if n > 0 {
        lemma_nonzero_count_bound(s, n - 1);
    }
}

/// Lowest index of a nonzero byte in `s`, or `s.len()` when all are zero.
pub open spec fn lowest_nonzero(s: Seq<u8>) -> int
    decreases s.len(),
{
    if s.len() == 0 {
        0
    } else if s[0] != 0 {
        0
    } else {
        1 + lowest_nonzero(s.drop_first())
    }
}

pub proof fn lemma_lowest_nonzero(s: Seq<u8>)
    ensures
        0 <= lowest_nonzero(s) <= s.len(),
        forall|j: int| 0 <= j < lowest_nonzero(s) ==> s[j] == 0,
        lowest_nonzero(s) < s.len() ==> s[lowest_nonzero(s)] != 0,
    decreases s.len(),
{
    if s.len() > 0 && s[0] == 0 {
        lemma_lowest_nonzero(s.drop_first());
        assert forall|j: int| 0 <= j < lowest_nonzero(s) implies s[j] == 0 by {
            if j > 0 {
                assert(s[j] == s.drop_first()[j - 1]);
            }
        }
    }
}

impl Task {
    pub open spec fn wf(&self) -> bool {
        &&& self.stack@.len() == STACK_SIZE
        &&& self.control.stack_size == STACK_SIZE
        &&& self.control.stack_ptr <= STACK_SIZE
    }

    pub open spec fn stack_view(&self) -> Seq<u8> {
        self.stack@
    }

    /// A saved context frame lies wholly inside the stack at the saved stack pointer.
    pub open spec fn has_frame(&self) -> bool {
        self.wf() && self.control.stack_ptr + CONTEXT_FRAME_SIZE <= STACK_SIZE
    }

    pub open spec fn restored_pc(&self) -> u16 {
        frame_pc(self.stack@, self.control.stack_ptr as int)
    }

    pub open spec fn restored_sreg(&self) -> u8 {
        frame_sreg(self.stack@, self.control.stack_ptr as int)
    }

    pub open spec fn restored_registers(&self) -> Seq<u8> {
        frame_registers(self.stack@, self.control.stack_ptr as int)
    }

    /// Creates a Ready task whose stack holds an initial context frame that enters `entry`
    /// with interrupts enabled and every general register zero.
    pub fn new(id: u32, priority: u8, name: &'static str, entry: u16) -> (r: Task)
        ensures
            r.wf(),
            r.has_frame(),
            r.control.id == id,
            r.control.priority == priority,
            r.control.state == TaskState::Ready,
            r.control.waiting_event is None,
            r.control.waiting_semaphore is None,
            r.control.last_wake_time == 0,
            r.control.deadline_ms == 0,
            r.control.stack_ptr == STACK_SIZE - CONTEXT_FRAME_SIZE,
            r.name == name,
            r.stack@ == initial_stack(entry),
    {
        let mut task = Task {
            control: TaskControl {
                id,
                stack_ptr: 0,
                stack_size: STACK_SIZE,
                state: TaskState::Ready,
                priority,
                waiting_event: None,
                wait_start: 0,
                wait_timeout: 0,
                waiting_semaphore: None,
                last_wake_time: 0,
                deadline_ms: 0,
            },
            name,
            stack: vec![0u8; STACK_SIZE],
        };
        let top = task.init_stack(entry);
        task.control.stack_ptr = top;
        task
    }

    /// Writes the initial context frame on top of a zeroed stack and returns the stack
    /// pointer below it.
    fn init_stack(&mut self, entry: u16) -> (sp: usize)
        requires
            old(self).stack@.len() == STACK_SIZE,
            forall|i: int| 0 <= i < STACK_SIZE ==> old(self).stack@[i] == 0,
        ensures
            sp == STACK_SIZE - CONTEXT_FRAME_SIZE,
            final(self).stack@ == initial_stack(entry),
            final(self).control == old(self).control,
            final(self).name == old(self).name,
    {
        let mut sp: usize = STACK_SIZE;
        sp = sp - 1;
        self.stack[sp] = (entry & 0xFF) as u8;
        sp = sp - 1;
        self.stack[sp] = ((entry >> 8) & 0xFF) as u8;
        sp = sp - 1;
        self.stack[sp] = SREG_INTERRUPT_ENABLE;
        let mut n: usize = 0;
        while n < REGISTER_COUNT
            invariant
                n <= REGISTER_COUNT,
                sp == STACK_SIZE - 3 - n,
                self.stack@.len() == STACK_SIZE,
                self.control == old(self).control,
                self.name == old(self).name,
                self.stack@[STACK_SIZE - 1] == (entry & 0xFF) as u8,
                self.stack@[STACK_SIZE - 2] == ((entry >> 8) & 0xFF) as u8,
                self.stack@[STACK_SIZE - 3] == SREG_INTERRUPT_ENABLE,
                forall|i: int| 0 <= i < STACK_SIZE - 3 ==> self.stack@[i] == 0,
            decreases REGISTER_COUNT - n,
        {
            sp = sp - 1;
            self.stack[sp] = 0;
            n = n + 1;
        }
        proof {
            assert((entry & 0xFF) as u8 == (entry % 256) as u8) by (bit_vector);
            assert(((entry >> 8) & 0xFF) as u8 == (entry / 256) as u8) by (bit_vector);
            assert(self.stack@ =~= initial_stack(entry));
        }
        sp
    }

    /// Loads the context frame at the saved stack pointer, as the restore routine does.
    pub fn restore_context(&self) -> (ctx: MachineContext)
        requires
            self.has_frame(),
        ensures
            ctx.program_counter == self.restored_pc(),
            ctx.status_reg == self.restored_sreg(),
            ctx.registers@ == self.restored_registers(),
    {
        let sp = self.control.stack_ptr;
        let mut registers: Vec<u8> = Vec::new();
        let mut n: usize = 0;
        while n < REGISTER_COUNT
            invariant
                self.has_frame(),
                sp == self.control.stack_ptr,
                n <= REGISTER_COUNT,
                registers@ == self.stack@.subrange(sp as int, sp + n),
            decreases REGISTER_COUNT - n,
        {
            registers.push(self.stack[sp + n]);
            n = n + 1;
            proof {
                assert(registers@ =~= self.stack@.subrange(sp as int, sp + n));
            }
        }
        let status_reg = self.stack[sp + REGISTER_COUNT];
        let high = self.stack[sp + REGISTER_COUNT + 1] as u16;
        let low = self.stack[sp + REGISTER_COUNT + 2] as u16;
        MachineContext { program_counter: high * 256 + low, status_reg, registers }
    }

    /// Records the stack pointer at which the task's context was saved.
    pub fn save_context(&mut self, sp: usize)
        requires
            old(self).wf(),
            sp <= STACK_SIZE,
        ensures
            final(self).wf(),
            *final(self) == (Task { control: TaskControl { stack_ptr: sp, ..old(self).control }, ..*old(self) }),
            final(self).stack@ == old(self).stack@,
            final(self).name == old(self).name,
    {
        self.control.stack_ptr = sp;
    }

    pub fn get_stack_ptr(&self) -> (r: usize)
        ensures
            r == self.control.stack_ptr,
    {
        self.control.stack_ptr
    }

    /// Number of nonzero bytes in the stack: a rough measure of the bytes in use.
    pub fn get_stack_usage(&self) -> (r: usize)
        requires
            self.wf(),
        ensures
            r == nonzero_count(self.stack@, STACK_SIZE as int),
    {
        let mut unused: usize = 0;
        let mut i: usize = 0;
        while i < self.stack.len()
            invariant
                self.wf(),
                i <= STACK_SIZE,
                unused + nonzero_count(self.stack@, i as int) == i,
            decreases STACK_SIZE - i,
        {
            if self.stack[i] == 0 {
                unused = unused + 1;
            }
            i = i + 1;
        }
        self.stack.len() - unused
    }

    /// Depth reached by the stack, which grows down from the top: the distance from the
    /// top to the lowest nonzero byte. A live zero byte below that point goes uncounted.
    pub fn stack_high_water_mark(&self) -> (r: usize)
        requires
            self.wf(),
        ensures
            r == STACK_SIZE - lowest_nonzero(self.stack@),
    {
        proof {
            lemma_lowest_nonzero(self.stack@);
        }
        let mut i: usize = 0;
        while i < self.stack.len()
            invariant
                self.wf(),
                i <= lowest_nonzero(self.stack@),
                0 <= lowest_nonzero(self.stack@) <= STACK_SIZE,
                forall|j: int| 0 <= j < lowest_nonzero(self.stack@) ==> self.stack@[j] == 0,
                lowest_nonzero(self.stack@) < STACK_SIZE ==> self.stack@[lowest_nonzero(self.stack@)] != 0,
            decreases STACK_SIZE - i,
        {
            if self.stack[i] != 0 {
                return STACK_SIZE - i;
            }
            i = i + 1;
        }
        0
    }

    /// Running becomes Suspended; any other state is left as it is.
    pub fn suspend(&mut self)
        ensures
            final(self).control == (TaskControl {
                state: if old(self).control.state == TaskState::Running {
                    TaskState::Suspended
                } else {
                    old(self).control.state
                },
                ..old(self).control
            }),
            final(self).stack@ == old(self).stack@,
            final(self).stack == old(self).stack,
            final(self).name == old(self).name,
    {
        if self.control.state == TaskState::Running {
            self.control.state = TaskState::Suspended;
        }
    }

    /// Suspended becomes Ready; any other state is left as it is.
    pub fn resume(&mut self)
        ensures
            final(self).control == (TaskControl {
                state: if old(self).control.state == TaskState::Suspended {
                    TaskState::Ready
                } else {
                    old(self).control.state
                },
                ..old(self).control
            }),
            final(self).stack@ == old(self).stack@,
            final(self).stack == old(self).stack,
            final(self).name == old(self).name,
    {
        if self.control.state == TaskState::Suspended {
            self.control.state = TaskState::Ready;
        }
    }

    /// Running becomes Blocked; any other state is left as it is.
    pub fn block(&mut self)
        ensures
            final(self).control == (TaskControl {
                state: if old(self).control.state == TaskState::Running {
                    TaskState::Blocked
                } else {
                    old(self).control.state
                },
                ..old(self).control
            }),
            final(self).stack@ == old(self).stack@,
            final(self).name == old(self).name,
    {
        if self.control.state == TaskState::Running {
            self.control.state = TaskState::Blocked;
        }
    }

    /// Blocked becomes Ready; any other state is left as it is.
    pub fn unblock(&mut self)
        ensures
            final(self).control == (TaskControl {
                state: if old(self).control.state == TaskState::Blocked {
                    TaskState::Ready
                } else {
                    old(self).control.state
                },
                ..old(self).control
            }),
            final(self).stack@ == old(self).stack@,
            final(self).name == old(self).name,
    {
        if self.control.state == TaskState::Blocked {
            self.control.state = TaskState::Ready;
        }
    }

    /// Blocks the task until an event of `event_type` arrives.
    pub fn wait_for_event(&mut self, event_type: EventType)
        ensures
            final(self).control == (TaskControl {
                waiting_event: Some(event_type),
                state: TaskState::Blocked,
                ..old(self).control
            }),
            final(self).stack@ == old(self).stack@,
            final(self).name == old(self).name,
    {
        self.control.waiting_event = Some(event_type);
        self.control.state = TaskState::Blocked;
    }

    pub fn set_deadline(&mut self, deadline_ms: u32)
        ensures
            final(self).control == (TaskControl { deadline_ms, ..old(self).control }),
            final(self).stack@ == old(self).stack@,
            final(self).name == old(self).name,
    {
        self.control.deadline_ms = deadline_ms;
    }

    /// A deadline is set and `current_time` lies more than `deadline_ms` ticks after the
    /// last wake. The two times are compared by the sign of their wrapped difference, so a
    /// wrap of the tick counter does not matter and a time before the last wake is never
    /// late.
    pub fn is_deadline_missed(&self, current_time: u32) -> (r: bool)
        ensures
            r == (self.control.deadline_ms > 0 && signed_ticks_between(
                self.control.last_wake_time,
                current_time,
            ) > self.control.deadline_ms),
    {
        let elapsed = current_time.wrapping_sub(self.control.last_wake_time);
        self.control.deadline_ms > 0 && elapsed < 0x8000_0000 && elapsed > self.control.deadline_ms
    }
}

/// The initial frame of a new task, once restored, enters its entry point with interrupts
/// enabled and all general registers zero. (`Task::new` also leaves the task Ready, not
/// Running.)
pub proof fn lemma_fresh_task_starts_at_entry(t: Task, entry: u16)
    requires
        t.wf(),
        t.control.stack_ptr == STACK_SIZE - CONTEXT_FRAME_SIZE,
        t.stack@ == initial_stack(entry),
    ensures
        t.has_frame(),
        t.restored_pc() == entry,
        t.restored_sreg() & SREG_INTERRUPT_ENABLE != 0,
        t.restored_registers().len() == REGISTER_COUNT,
        forall|k: int| 0 <= k < REGISTER_COUNT ==> #[trigger] t.restored_registers()[k] == 0,
{
    let s = t.stack@;
    assert(s[STACK_SIZE - 2] == (entry / 256) as u8);
    assert(s[STACK_SIZE - 1] == (entry % 256) as u8);
    assert((entry / 256) as u8 as int * 256 + (entry % 256) as u8 as int == entry as int) by (nonlinear_arith);
    assert(SREG_INTERRUPT_ENABLE & SREG_INTERRUPT_ENABLE != 0) by (bit_vector);
}

} // verus!

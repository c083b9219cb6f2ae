use atmega128_firmware::event::{Event, EventQueue, EventType, EVENT_QUEUE_CAPACITY};
use atmega128_firmware::scheduler::{
    Scheduler, SchedulerError, TaskBuilder, TaskPriority, MAX_SEMAPHORES, MAX_TASKS,
};
use atmega128_firmware::semaphore::Semaphore;
use atmega128_firmware::task::TaskState;

const IDLE_ENTRY: u16 = 0x0100;

fn started() -> Scheduler {
    let mut s = Scheduler::new();
    assert_eq!(s.init(IDLE_ENTRY), Ok(()));
    s
}

#[test]
fn task_table_limit_and_reuse() {
    let mut s = Scheduler::new();
    for i in 0..MAX_TASKS {
        assert_eq!(s.add_task(0x200, TaskPriority::Normal, 100), Ok(i));
    }
    assert_eq!(s.task_count(), MAX_TASKS);
    assert_eq!(s.add_task(0x200, TaskPriority::Normal, 100), Err(SchedulerError::TaskLimitReached));
    assert_eq!(s.remove_task(5), Ok(()));
    assert_eq!(s.task_count(), MAX_TASKS - 1);
    assert_eq!(s.add_task(0x300, TaskPriority::High, 100), Ok(5));
    assert_eq!(s.add_task(0x200, TaskPriority::Normal, 100), Err(SchedulerError::TaskLimitReached));
}

#[test]
fn init_twice_fails() {
    let mut s = started();
    assert_eq!(s.idle_task_index(), Some(0));
    assert_eq!(s.init(IDLE_ENTRY), Err(SchedulerError::AlreadyRunning));
    assert_eq!(s.task_count(), 1);
}

#[test]
fn init_on_full_table_fails() {
    let mut s = Scheduler::new();
    for _ in 0..MAX_TASKS {
        s.add_task(0x200, TaskPriority::Low, 0).unwrap();
    }
    assert_eq!(s.init(IDLE_ENTRY), Err(SchedulerError::TaskLimitReached));
    assert_eq!(s.idle_task_index(), None);
}

#[test]
fn remove_task_errors() {
    let mut s = started();
    assert_eq!(s.remove_task(MAX_TASKS), Err(SchedulerError::TaskNotFound));
    assert_eq!(s.remove_task(3), Err(SchedulerError::TaskNotFound));
    assert_eq!(s.remove_task(0), Err(SchedulerError::TaskNotFound));
    let a = s.add_task(0x200, TaskPriority::Low, 0).unwrap();
    assert_eq!(s.remove_task(a), Ok(()));
    assert_eq!(s.remove_task(a), Err(SchedulerError::TaskNotFound));
}

#[test]
fn highest_priority_ready_task_is_selected() {
    let mut s = started();
    let low = s.add_task(0x200, TaskPriority::Low, 0).unwrap();
    let crit = s.add_task(0x300, TaskPriority::Critical, 0).unwrap();
    let normal = s.add_task(0x400, TaskPriority::Normal, 0).unwrap();
    let high = s.add_task(0x500, TaskPriority::High, 0).unwrap();
    assert_eq!(s.schedule_next_task(), Some(crit));
    assert_eq!(s.remove_task(crit), Ok(()));
    assert_eq!(s.schedule_next_task(), Some(high));
    assert_eq!(s.remove_task(high), Ok(()));
    assert_eq!(s.schedule_next_task(), Some(normal));
    assert_eq!(s.remove_task(normal), Ok(()));
    assert_eq!(s.schedule_next_task(), Some(low));
}

#[test]
fn equal_priority_goes_to_lower_slot() {
    let mut s = started();
    let _low = s.add_task(0x200, TaskPriority::Low, 0).unwrap();
    let first = s.add_task(0x300, TaskPriority::High, 0).unwrap();
    let _second = s.add_task(0x400, TaskPriority::High, 0).unwrap();
    for _ in 0..10 {
        assert_eq!(s.schedule_next_task(), Some(first));
    }
}

#[test]
fn idle_selected_when_nothing_ready() {
    let mut s = started();
    assert_eq!(s.schedule_next_task(), Some(0));
    let a = s.add_task(0x200, TaskPriority::High, 0).unwrap();
    assert_eq!(s.dispatch(), Some(a));
    assert_eq!(s.semaphore_acquire(7), Err(SchedulerError::InvalidSemaphore));
    let sem = s.create_semaphore(0).unwrap();
    assert_eq!(s.semaphore_acquire(sem), Err(SchedulerError::SemaphoreLocked));
    assert_eq!(s.task_state(a), Some(TaskState::Blocked));
    assert_eq!(s.schedule_next_task(), Some(0));
    assert_eq!(s.dispatch(), Some(0));
    assert_eq!(s.current_task(), Some(0));
}

#[test]
fn unstarted_scheduler_selects_nothing() {
    let s = Scheduler::new();
    assert_eq!(s.schedule_next_task(), None);
}

#[test]
fn semaphore_counts_acquires() {
    let mut sem = Semaphore::new(3);
    assert!(sem.acquire());
    assert!(sem.acquire());
    assert!(sem.acquire());
    assert!(!sem.acquire());
    sem.release();
    assert!(sem.acquire());
    assert!(!sem.acquire());
}

#[test]
fn semaphore_release_saturates() {
    let mut sem = Semaphore::new(u8::MAX);
    sem.release();
    assert_eq!(sem.count, u8::MAX);
}

#[test]
fn scheduler_semaphore_acquire_and_release() {
    let mut s = started();
    let sem = s.create_semaphore(2).unwrap();
    assert_eq!(s.semaphore_acquire(sem), Ok(()));
    assert_eq!(s.semaphore_acquire(sem), Ok(()));
    assert_eq!(s.semaphore_count(sem), Some(0));
    assert_eq!(s.semaphore_acquire(sem), Err(SchedulerError::SemaphoreLocked));
    assert_eq!(s.semaphore_release(sem), Ok(()));
    assert_eq!(s.semaphore_acquire(sem), Ok(()));
    assert_eq!(s.semaphore_release(MAX_SEMAPHORES), Err(SchedulerError::InvalidSemaphore));
    assert_eq!(s.semaphore_release(sem + 1), Err(SchedulerError::InvalidSemaphore));
}

#[test]
fn semaphore_pool_exhausts() {
    let mut s = started();
    for i in 0..MAX_SEMAPHORES {
        assert_eq!(s.create_semaphore(0), Ok(i));
    }
    assert_eq!(s.create_semaphore(1), Err(SchedulerError::NoSemaphoresAvailable));
}

#[test]
fn release_wakes_only_waiters_of_that_semaphore() {
    let mut s = started();
    let a = s.add_task(0x200, TaskPriority::High, 0).unwrap();
    let b = s.add_task(0x300, TaskPriority::Normal, 0).unwrap();
    let sem_a = s.create_semaphore(0).unwrap();
    let sem_b = s.create_semaphore(0).unwrap();
    assert_eq!(s.dispatch(), Some(a));
    assert_eq!(s.semaphore_acquire(sem_a), Err(SchedulerError::SemaphoreLocked));
    assert_eq!(s.dispatch(), Some(b));
    assert_eq!(s.semaphore_acquire(sem_b), Err(SchedulerError::SemaphoreLocked));
    assert_eq!(s.dispatch(), Some(0));
    assert_eq!(s.semaphore_release(sem_b), Ok(()));
    assert_eq!(s.task_state(a), Some(TaskState::Blocked));
    assert_eq!(s.task_state(b), Some(TaskState::Ready));
    assert_eq!(s.dispatch(), Some(b));
    assert_eq!(s.semaphore_acquire(sem_b), Ok(()));
}

#[test]
fn event_queue_full_keeps_entries_in_order() {
    let mut q = EventQueue::new();
    for i in 0..EVENT_QUEUE_CAPACITY as u32 {
        assert!(q.push(Event::new(EventType::Custom(i as u8), i, i)));
    }
    assert!(!q.push(Event::new(EventType::Timer, 999, 999)));
    assert_eq!(q.len(), EVENT_QUEUE_CAPACITY);
    for i in 0..EVENT_QUEUE_CAPACITY as u32 {
        assert_eq!(q.pop(), Some(Event::new(EventType::Custom(i as u8), i, i)));
    }
    assert_eq!(q.pop(), None);
}

#[test]
fn post_event_on_full_queue_fails() {
    let mut s = started();
    for i in 0..EVENT_QUEUE_CAPACITY as u32 {
        assert_eq!(s.post_event(EventType::Adc, i), Ok(()));
    }
    assert_eq!(s.post_event(EventType::Gpio, 77), Err(SchedulerError::EventQueueFull));
    assert_eq!(s.pending_events(), EVENT_QUEUE_CAPACITY);
    for i in 0..EVENT_QUEUE_CAPACITY as u32 {
        let e = s.wait_for_event(EventType::Adc, 0).unwrap();
        assert_eq!(e.data, i);
    }
    assert_eq!(s.pending_events(), 0);
}

#[test]
fn take_first_removes_first_match_only() {
    let mut q = EventQueue::new();
    q.push(Event::new(EventType::Timer, 1, 0));
    q.push(Event::new(EventType::Uart, 2, 0));
    q.push(Event::new(EventType::Timer, 3, 0));
    q.push(Event::new(EventType::Uart, 4, 0));
    assert_eq!(q.take_first(EventType::Uart), Some(Event::new(EventType::Uart, 2, 0)));
    assert_eq!(q.take_first(EventType::Gpio), None);
    assert_eq!(q.pop(), Some(Event::new(EventType::Timer, 1, 0)));
    assert_eq!(q.pop(), Some(Event::new(EventType::Timer, 3, 0)));
    assert_eq!(q.pop(), Some(Event::new(EventType::Uart, 4, 0)));
}

#[test]
fn zero_timeout_wait_does_not_block() {
    let mut s = started();
    let a = s.add_task(0x200, TaskPriority::Normal, 0).unwrap();
    assert_eq!(s.dispatch(), Some(a));
    s.post_event(EventType::Gpio, 1).unwrap();
    assert_eq!(s.wait_for_event(EventType::Timer, 0), Err(SchedulerError::Timeout));
    assert_eq!(s.task_state(a), Some(TaskState::Running));
    assert_eq!(s.pending_events(), 1);
}

#[test]
fn wait_blocks_until_event_posted() {
    let mut s = started();
    let a = s.add_task(0x200, TaskPriority::High, 0).unwrap();
    let b = s.add_task(0x300, TaskPriority::Low, 0).unwrap();
    assert_eq!(s.dispatch(), Some(a));
    assert_eq!(s.wait_for_event(EventType::Uart, 50), Err(SchedulerError::WouldBlock));
    assert_eq!(s.task_state(a), Some(TaskState::Blocked));
    assert_eq!(s.dispatch(), Some(b));
    s.tick();
    assert_eq!(s.post_event(EventType::Uart, 42), Ok(()));
    assert_eq!(s.task_state(a), Some(TaskState::Ready));
    assert_eq!(s.dispatch(), Some(a));
    let e = s.wait_for_event(EventType::Uart, 50).unwrap();
    assert_eq!(e.data, 42);
    assert_eq!(e.timestamp, 1);
    assert_eq!(e.event_type, EventType::Uart);
    assert_eq!(s.task_control(a).unwrap().waiting_event, None);
}

#[test]
fn wait_times_out_after_ticks() {
    let mut s = started();
    let a = s.add_task(0x200, TaskPriority::High, 0).unwrap();
    assert_eq!(s.dispatch(), Some(a));
    assert_eq!(s.wait_for_event(EventType::Timer, 3), Err(SchedulerError::WouldBlock));
    assert_eq!(s.dispatch(), Some(0));
    s.tick();
    s.tick();
    assert_eq!(s.dispatch(), Some(0));
    s.tick();
    assert!(s.reschedule_pending());
    assert_eq!(s.dispatch(), Some(a));
    assert!(!s.reschedule_pending());
    assert_eq!(s.wait_for_event(EventType::Timer, 3), Err(SchedulerError::Timeout));
    assert_eq!(s.task_state(a), Some(TaskState::Running));
}

#[test]
fn no_current_task_wait_times_out() {
    let mut s = started();
    assert_eq!(s.wait_for_event(EventType::Timer, 10), Err(SchedulerError::Timeout));
}

#[test]
fn high_priority_runs_until_it_blocks() {
    let mut s = started();
    let a = s.add_task(0x200, TaskPriority::High, 0).unwrap();
    let b = s.add_task(0x300, TaskPriority::Low, 0).unwrap();
    assert_eq!(s.dispatch(), Some(a));
    s.tick();
    assert_eq!(s.dispatch(), Some(a));
    assert_eq!(s.task_state(b), Some(TaskState::Ready));
    let sem = s.create_semaphore(0).unwrap();
    assert_eq!(s.semaphore_acquire(sem), Err(SchedulerError::SemaphoreLocked));
    assert_eq!(s.task_state(a), Some(TaskState::Blocked));
    assert_eq!(s.dispatch(), Some(b));
    assert_eq!(s.task_state(b), Some(TaskState::Running));
    assert_eq!(s.semaphore_release(sem), Ok(()));
    assert_eq!(s.dispatch(), Some(a));
    assert_eq!(s.task_state(b), Some(TaskState::Ready));
    assert_eq!(s.semaphore_acquire(sem), Ok(()));
}

#[test]
fn suspended_task_is_never_selected() {
    let mut s = started();
    let a = s.add_task(0x200, TaskPriority::Critical, 0).unwrap();
    let b = s.add_task(0x300, TaskPriority::Low, 0).unwrap();
    assert_eq!(s.suspend_task(a), Ok(()));
    assert_eq!(s.task_state(a), Some(TaskState::Ready));
    assert_eq!(s.dispatch(), Some(a));
    assert_eq!(s.suspend_task(a), Ok(()));
    assert_eq!(s.task_state(a), Some(TaskState::Suspended));
    assert_eq!(s.dispatch(), Some(b));
    assert_eq!(s.dispatch(), Some(b));
    assert_eq!(s.resume_task(a), Ok(()));
    assert_eq!(s.dispatch(), Some(a));
    assert_eq!(s.suspend_task(9), Err(SchedulerError::TaskNotFound));
    assert_eq!(s.dispatch(), Some(a));
    assert_eq!(s.semaphore_acquire(0), Err(SchedulerError::InvalidSemaphore));
    assert_eq!(s.suspend_task(a), Ok(()));
    assert_eq!(s.dispatch(), Some(b));
    assert_eq!(s.suspend_task(b), Ok(()));
    assert_eq!(s.dispatch(), Some(0));
    assert_eq!(s.suspend_task(0), Ok(()));
    assert_eq!(s.task_state(0), Some(TaskState::Running));
    assert_eq!(s.resume_task(MAX_TASKS), Err(SchedulerError::TaskNotFound));
}

#[test]
fn removing_current_task_leaves_none_current() {
    let mut s = started();
    let a = s.add_task(0x200, TaskPriority::Critical, 0).unwrap();
    assert_eq!(s.dispatch(), Some(a));
    assert_eq!(s.remove_task(a), Ok(()));
    assert_eq!(s.current_task(), None);
    assert_eq!(s.dispatch(), Some(0));
}

#[test]
fn tick_counter_wraps() {
    let mut s = started();
    assert_eq!(s.tick_count(), 0);
    s.tick();
    assert_eq!(s.tick_count(), 1);
}

#[test]
fn dispatch_records_wake_time_and_runs() {
    let mut s = started();
    let a = s.add_task(0x200, TaskPriority::Normal, 25).unwrap();
    s.tick();
    s.tick();
    assert_eq!(s.dispatch(), Some(a));
    let c = s.task_control(a).unwrap();
    assert_eq!(c.last_wake_time, 2);
    assert_eq!(c.deadline_ms, 25);
    let b = s.add_task(0x300, TaskPriority::High, 0).unwrap();
    assert_eq!(s.dispatch(), Some(b));
    assert_eq!(s.task_runs(a), Some(1));
    assert_eq!(s.task_runs(MAX_TASKS), None);
}

#[test]
fn context_save_and_load() {
    let mut s = started();
    assert_eq!(s.load_context(0), Some(512 - 35));
    assert_eq!(s.save_context(0, 300), Ok(()));
    assert_eq!(s.load_context(0), Some(300));
    assert_eq!(s.save_context(4, 300), Err(SchedulerError::TaskNotFound));
    assert_eq!(s.load_context(4), None);
}

#[test]
fn priority_levels() {
    assert_eq!(TaskPriority::Idle.level(), 0);
    assert_eq!(TaskPriority::Critical.level(), 4);
    assert_eq!(TaskPriority::from_level(3), Ok(TaskPriority::High));
    assert_eq!(TaskPriority::from_level(5), Err(SchedulerError::InvalidPriority));
}

#[test]
fn task_builder_installs_task() {
    let mut s = started();
    assert!(!TaskBuilder::new().priority(TaskPriority::High).build(&mut s));
    assert!(TaskBuilder::new().function(0x400).priority(TaskPriority::High).period(500).build(&mut s));
    let c = s.task_control(1).unwrap();
    assert_eq!(c.priority, 3);
    assert_eq!(c.deadline_ms, 500);
    let d = TaskBuilder::default();
    assert_eq!(d, TaskBuilder::new());
    assert_eq!(d.period_ms, 1000);
    assert_eq!(d.priority, TaskPriority::Normal);
}

#[test]
fn tasks_get_consecutive_ids() {
    let mut s = started();
    let a = s.add_task(0x200, TaskPriority::Low, 0).unwrap();
    let b = s.add_task(0x300, TaskPriority::Low, 0).unwrap();
    assert_eq!(s.task_control(0).unwrap().id, 0);
    assert_eq!(s.task_control(a).unwrap().id, 1);
    assert_eq!(s.task_control(b).unwrap().id, 2);
    assert_eq!(s.remove_task(a), Ok(()));
    let c = s.add_task(0x400, TaskPriority::Low, 0).unwrap();
    assert_eq!(c, a);
    assert_eq!(s.task_control(c).unwrap().id, 3);
}

#[test]
fn switch_leaves_one_task_running() {
    let mut s = started();
    let a = s.add_task(0x200, TaskPriority::Low, 0).unwrap();
    assert_eq!(s.dispatch(), Some(a));
    let b = s.add_task(0x300, TaskPriority::High, 0).unwrap();
    assert_eq!(s.dispatch(), Some(b));
    assert_eq!(s.task_state(a), Some(TaskState::Ready));
    assert_eq!(s.task_state(b), Some(TaskState::Running));
    assert_eq!(s.task_state(0), Some(TaskState::Ready));
}

#[test]
fn semaphore_block_drops_stale_event_filter() {
    let mut s = started();
    let a = s.add_task(0x200, TaskPriority::High, 0).unwrap();
    assert_eq!(s.dispatch(), Some(a));
    assert_eq!(s.wait_for_event(EventType::Uart, 100), Err(SchedulerError::WouldBlock));
    assert_eq!(s.post_event(EventType::Adc, 0), Ok(()));
    assert_eq!(s.resume_task(a), Ok(()));
    let sem = s.create_semaphore(0).unwrap();
    let mut c = s.task_control(a).unwrap();
    assert_eq!(c.waiting_event, Some(EventType::Uart));
    assert_eq!(s.post_event(EventType::Uart, 1), Ok(()));
    assert_eq!(s.dispatch(), Some(a));
    assert_eq!(s.semaphore_acquire(sem), Err(SchedulerError::SemaphoreLocked));
    c = s.task_control(a).unwrap();
    assert_eq!(c.waiting_event, None);
    assert_eq!(c.waiting_semaphore, Some(sem));
    assert_eq!(s.post_event(EventType::Uart, 2), Ok(()));
    assert_eq!(s.task_state(a), Some(TaskState::Blocked));
}

#[test]
fn idle_task_never_blocks() {
    let mut s = started();
    assert_eq!(s.dispatch(), Some(0));
    let sem = s.create_semaphore(0).unwrap();
    assert_eq!(s.semaphore_acquire(sem), Err(SchedulerError::SemaphoreLocked));
    assert_eq!(s.task_state(0), Some(TaskState::Running));
    assert_eq!(s.wait_for_event(EventType::Timer, 10), Err(SchedulerError::Timeout));
    assert_eq!(s.task_state(0), Some(TaskState::Running));
    assert_eq!(s.task_control(0).unwrap().waiting_event, None);
}

#[test]
fn ids_are_never_reused() {
    let mut s = started();
    let mut last = s.task_control(0).unwrap().id;
    for _ in 0..300 {
        let a = s.add_task(0x200, TaskPriority::Low, 0).unwrap();
        let id = s.task_control(a).unwrap().id;
        assert!(id > last);
        last = id;
        assert_eq!(s.remove_task(a), Ok(()));
    }
    assert_eq!(last, 300);
}

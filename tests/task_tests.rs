use atmega128_firmware::event::EventType;
use atmega128_firmware::task::{Task, TaskState, CONTEXT_FRAME_SIZE, REGISTER_COUNT, STACK_SIZE};

#[test]
fn fresh_task_context_enters_entry_with_interrupts_enabled() {
    let t = Task::new(7, 3, "worker", 0x1234);
    assert_eq!(t.control.state, TaskState::Ready);
    assert_eq!(t.control.id, 7);
    assert_eq!(t.control.priority, 3);
    assert_eq!(t.get_stack_ptr(), STACK_SIZE - CONTEXT_FRAME_SIZE);
    let ctx = t.restore_context();
    assert_eq!(ctx.program_counter, 0x1234);
    assert_eq!(ctx.status_reg & 0x80, 0x80);
    assert_eq!(ctx.registers.len(), REGISTER_COUNT);
    assert!(ctx.registers.iter().all(|&r| r == 0));
}

#[test]
fn fresh_task_stack_layout() {
    let t = Task::new(0, 1, "t", 0xABCD);
    assert_eq!(t.stack[STACK_SIZE - 1], 0xCD);
    assert_eq!(t.stack[STACK_SIZE - 2], 0xAB);
    assert_eq!(t.stack[STACK_SIZE - 3], 0x80);
    assert!(t.stack[..STACK_SIZE - 3].iter().all(|&b| b == 0));
}

#[test]
fn stack_usage_counts_nonzero_bytes() {
    let t = Task::new(0, 1, "t", 0x1234);
    assert_eq!(t.get_stack_usage(), 3);
    assert_eq!(t.stack_high_water_mark(), 3);
    let z = Task::new(0, 1, "z", 0x0000);
    assert_eq!(z.get_stack_usage(), 1);
    assert_eq!(z.stack_high_water_mark(), 3);
}

#[test]
fn suspend_only_from_running() {
    let mut t = Task::new(0, 1, "t", 1);
    t.suspend();
    assert_eq!(t.control.state, TaskState::Ready);
    t.control.state = TaskState::Running;
    t.suspend();
    assert_eq!(t.control.state, TaskState::Suspended);
    t.resume();
    assert_eq!(t.control.state, TaskState::Ready);
    t.resume();
    assert_eq!(t.control.state, TaskState::Ready);
}

#[test]
fn block_only_from_running() {
    let mut t = Task::new(0, 1, "t", 1);
    t.block();
    assert_eq!(t.control.state, TaskState::Ready);
    t.unblock();
    assert_eq!(t.control.state, TaskState::Ready);
    t.control.state = TaskState::Running;
    t.block();
    assert_eq!(t.control.state, TaskState::Blocked);
    t.unblock();
    assert_eq!(t.control.state, TaskState::Ready);
}

#[test]
fn task_wait_for_event_blocks() {
    let mut t = Task::new(0, 1, "t", 1);
    t.wait_for_event(EventType::Uart);
    assert_eq!(t.control.state, TaskState::Blocked);
    assert_eq!(t.control.waiting_event, Some(EventType::Uart));
}

#[test]
fn save_context_records_stack_pointer() {
    let mut t = Task::new(0, 1, "t", 1);
    t.save_context(100);
    assert_eq!(t.get_stack_ptr(), 100);
}

#[test]
fn deadline_check() {
    let mut t = Task::new(0, 1, "t", 1);
    assert!(!t.is_deadline_missed(1_000_000));
    t.set_deadline(10);
    t.control.last_wake_time = 100;
    assert!(!t.is_deadline_missed(110));
    assert!(t.is_deadline_missed(111));
}

#[test]
fn deadline_not_missed_before_last_wake() {
    let mut t = Task::new(0, 1, "t", 1);
    t.set_deadline(5);
    t.control.last_wake_time = 100;
    assert!(!t.is_deadline_missed(99));
    assert!(!t.is_deadline_missed(0));
    assert!(t.is_deadline_missed(106));
}

#[test]
fn deadline_check_across_tick_wrap() {
    let mut t = Task::new(0, 1, "t", 1);
    t.set_deadline(10);
    t.control.last_wake_time = u32::MAX - 4;
    assert!(!t.is_deadline_missed(5));
    assert!(t.is_deadline_missed(6));
    assert!(!t.is_deadline_missed(u32::MAX - 5));
}

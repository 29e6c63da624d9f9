use kernel_core::KernelError;
use kernel_core::context::Hart;
use kernel_core::process::CurrentProcess;
use kernel_core::process::Process;
use kernel_core::process::ProcessManager;
use kernel_core::process::ProcessState;
use kernel_core::process::STACK_WORDS;
use kernel_core::process::switch_in;
use kernel_core::process::switch_out;

#[test]
fn fresh_manager_starts_idle() {
    let mgr = ProcessManager::new();
    assert_eq!(mgr.current_process, CurrentProcess::Idle);
    let cur = mgr.get_current();
    assert_eq!(cur.pid, -1);
    assert_eq!(cur.state, ProcessState::Unused);
}

#[test]
fn create_occupies_distinct_slots_in_order() {
    let mut mgr = ProcessManager::new();
    mgr.create_idle(100);
    assert!(mgr.create(200).is_ok());
    assert!(mgr.create(300).is_ok());
    assert!(mgr.create(400).is_ok());
    let mut hart = Hart::new();
    // the three creations filled slots 0, 1, 2: the scan visits them in order
    assert!(mgr.schedule(&mut hart).is_ok());
    assert_eq!(mgr.get_current().pid, 0);
    assert!(mgr.schedule(&mut hart).is_ok());
    assert_eq!(mgr.get_current().pid, 1);
    assert!(mgr.schedule(&mut hart).is_ok());
    assert_eq!(mgr.get_current().pid, 2);
}

#[test]
fn create_beyond_capacity_is_fatal() {
    let mut mgr = ProcessManager::new();
    assert!(mgr.create(200).is_ok());
    assert!(mgr.create(300).is_ok());
    assert!(mgr.create(400).is_ok());
    assert_eq!(mgr.create(500), Err(KernelError::InternalInconsistency));
}

#[test]
fn round_robin_two_workers() {
    let mut mgr = ProcessManager::new();
    mgr.create_idle(100);
    assert!(mgr.create(200).is_ok());
    assert!(mgr.create(300).is_ok());
    let mut hart = Hart::new();
    assert!(mgr.schedule(&mut hart).is_ok());
    assert_eq!(mgr.current_process, CurrentProcess::Process(0));
    // a fresh worker's restored return address is its entry point
    assert_eq!(hart.ra, 200);
    assert!(mgr.schedule(&mut hart).is_ok());
    assert_eq!(mgr.current_process, CurrentProcess::Process(1));
    assert_eq!(hart.ra, 300);
    assert!(mgr.schedule(&mut hart).is_ok());
    assert_eq!(mgr.current_process, CurrentProcess::Process(0));
    assert!(mgr.schedule(&mut hart).is_ok());
    assert_eq!(mgr.current_process, CurrentProcess::Process(1));
}

#[test]
fn round_robin_three_workers_in_slot_order() {
    let mut mgr = ProcessManager::new();
    mgr.create_idle(100);
    assert!(mgr.create(200).is_ok());
    assert!(mgr.create(300).is_ok());
    assert!(mgr.create(400).is_ok());
    let mut hart = Hart::new();
    let mut visited: Vec<isize> = Vec::new();
    for _ in 0..7 {
        assert!(mgr.schedule(&mut hart).is_ok());
        visited.push(mgr.get_current().pid);
    }
    // all others visited, in increasing slot order wrapping, before a revisit
    assert_eq!(visited, vec![0, 1, 2, 0, 1, 2, 0]);
}

#[test]
fn idle_fallback_stays_on_idle() {
    let mut mgr = ProcessManager::new();
    let mut hart = Hart::new();
    for _ in 0..3 {
        assert!(mgr.schedule(&mut hart).is_ok());
        assert_eq!(mgr.current_process, CurrentProcess::Idle);
        assert_eq!(hart.sscratch, CurrentProcess::Idle);
    }
}

#[test]
fn schedule_publishes_selection_to_sscratch() {
    let mut mgr = ProcessManager::new();
    mgr.create_idle(100);
    assert!(mgr.create(200).is_ok());
    let mut hart = Hart::new();
    assert!(mgr.schedule(&mut hart).is_ok());
    assert_eq!(hart.sscratch, CurrentProcess::Process(0));
}

#[test]
fn switch_round_trip_preserves_callee_saved_state() {
    let mut mgr = ProcessManager::new();
    mgr.create_idle(100);
    assert!(mgr.create(200).is_ok());
    assert!(mgr.create(300).is_ok());
    let mut hart = Hart::new();
    assert!(mgr.schedule(&mut hart).is_ok());
    // worker 0 runs and keeps a private counter in a callee-saved register
    assert_eq!(mgr.current_process, CurrentProcess::Process(0));
    hart.s0 = 42;
    hart.s11 = 7;
    let ra_before = hart.ra;
    let sp_before = hart.sp;
    // yield to worker 1: its fresh frame has zeroed callee-saved registers
    assert!(mgr.schedule(&mut hart).is_ok());
    assert_eq!(mgr.current_process, CurrentProcess::Process(1));
    assert_eq!(hart.s0, 0);
    assert_eq!(hart.s11, 0);
    // worker 1 clobbers its registers, then yields back to worker 0
    hart.s0 = 999;
    assert!(mgr.schedule(&mut hart).is_ok());
    assert_eq!(mgr.current_process, CurrentProcess::Process(0));
    // worker 0 resumes exactly where it left off
    assert_eq!(hart.s0, 42);
    assert_eq!(hart.s11, 7);
    assert_eq!(hart.ra, ra_before);
    assert_eq!(hart.sp, sp_before);
}

#[test]
fn switch_halves_move_frame_through_stack() {
    let mut p = Process::new(5);
    let mut hart = Hart::new();
    hart.ra = 0x1234;
    hart.s0 = 11;
    hart.s11 = 22;
    switch_out(&mut p, &hart);
    assert_eq!(p.sp, STACK_WORDS - 13);
    assert_eq!(p.stack[p.sp], 0x1234);
    assert_eq!(p.stack[p.sp + 1], 11);
    assert_eq!(p.stack[p.sp + 12], 22);
    let mut other = Hart::new();
    switch_in(&p, &mut other);
    assert_eq!(other.ra, 0x1234);
    assert_eq!(other.s0, 11);
    assert_eq!(other.s11, 22);
    assert_eq!(other.sp, hart.sp);
}

#[test]
fn as_isize_maps_idle_to_reserved_position() {
    assert_eq!(CurrentProcess::Idle.as_isize(), -1);
    assert_eq!(CurrentProcess::Process(0).as_isize(), 0);
    assert_eq!(CurrentProcess::Process(2).as_isize(), 2);
}

#[test]
fn get_current_follows_the_schedule() {
    let mut mgr = ProcessManager::new();
    mgr.create_idle(100);
    assert!(mgr.create(200).is_ok());
    let mut hart = Hart::new();
    assert!(mgr.schedule(&mut hart).is_ok());
    let cur = mgr.get_current();
    assert_eq!(cur.pid, 0);
    assert_eq!(cur.state, ProcessState::Runnable);
}

#[test]
fn process_new_builds_unused_zeroed_slot() {
    let p = Process::new(7);
    assert_eq!(p.pid, 7);
    assert_eq!(p.state, ProcessState::Unused);
    assert_eq!(p.sp, 0);
    assert_eq!(p.stack.len(), STACK_WORDS);
    assert!(p.stack.iter().all(|w| *w == 0));
}

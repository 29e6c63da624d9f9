use kernel_core::context::Hart;
use kernel_core::kernel::kernel_main;
use kernel_core::kernel::step;
use kernel_core::process::CurrentProcess;
use kernel_core::process::ProcessManager;
use kernel_core::sbi::SbiConsole;

#[test]
fn boot_enters_the_first_worker_at_its_entry() {
    let (mgr, hart) = kernel_main(10, 20, 30).unwrap();
    assert_eq!(mgr.current_process, CurrentProcess::Process(0));
    assert_eq!(hart.ra, 20);
    assert_eq!(hart.sscratch, CurrentProcess::Process(0));
}

#[test]
fn two_workers_alternate_strictly_on_the_console() {
    let (mut mgr, mut hart) = kernel_main(10, 20, 30).unwrap();
    let mut con = SbiConsole::new();
    for _ in 0..10 {
        assert!(step(&mut mgr, &mut hart, &mut con).is_ok());
    }
    // strict alternation between the two worker ids over every cycle:
    // no third id, no immediate repeat
    assert_eq!(con.output().as_slice(), b"ABABABABAB");
}

#[test]
fn idle_system_emits_nothing() {
    let mut mgr = ProcessManager::new();
    let mut hart = Hart::new();
    let mut con = SbiConsole::new();
    for _ in 0..5 {
        assert!(step(&mut mgr, &mut hart, &mut con).is_ok());
    }
    assert!(con.output().is_empty());
    assert_eq!(mgr.current_process, CurrentProcess::Idle);
}

//! The boot path and the cooperative worker loop, as the end-to-end
//! scenario drives them: boot creates the idle process and two workers
//! and enters the first of them; from then on each process's turn is
//! "emit its own identity on the console, then yield".
//!
//! On hardware the workers are parameterless entry points that loop
//! forever; the model drives one turn of the running process at a time,
//! so the interleaving the scheduler produces is observable on the
//! console log.

use vstd::prelude::*;

use crate::KernelError;
use crate::context::Hart;
use crate::context::HartModel;
use crate::context::stack_with_frame;
use crate::process::CurrentProcess;
use crate::process::ManagerModel;
use crate::process::ProcessManager;
use crate::process::MAX_PROCESSES;
use crate::process::STACK_WORDS;
use crate::process::init_frame;
use crate::process::zero_stack;
use crate::sbi::SbiConsole;
use crate::sbi::putchar;

verus! {

/// The identity byte a worker emits each turn: `b'A'` for slot 0, `b'B'`
/// for slot 1, and so on up the table.
pub open spec fn id_byte(i: int) -> u8
    recommends
        0 <= i < MAX_PROCESSES,
{
    (i + 65) as u8
}

/// One turn of the running process's loop: a worker emits its identity
/// byte on the console and yields; the idle process only yields.
pub fn step(mgr: &mut ProcessManager, hart: &mut Hart, con: &mut SbiConsole) -> (r: Result<
    (),
    KernelError,
>)
    requires
        old(mgr)@.wf(),
        old(hart)@.wf(),
    ensures
        r is Ok,
        final(mgr)@ == old(mgr)@.after_schedule_mgr(old(hart)@),
        final(hart)@ == old(mgr)@.after_schedule_hart(old(hart)@),
        final(mgr)@.wf(),
        final(hart)@.wf(),
        final(con)@ == (match old(mgr)@.current {
            CurrentProcess::Idle => old(con)@,
            CurrentProcess::Process(i) => old(con)@.push(id_byte(i as int)),
        }),
{
    match mgr.current() {
        CurrentProcess::Idle => {}
        CurrentProcess::Process(i) => {
            putchar(con, 65 + (i as u8));
        }
    }
    mgr.schedule(hart)
}

/// The manager state the boot path reaches: idle and the two workers
/// created, control transferred into the first worker.
pub open spec fn boot_manager(idle_entry: u32, entry_a: u32, entry_b: u32) -> ManagerModel {
    ManagerModel::fresh().after_create_idle(idle_entry).after_create(entry_a).after_create(
        entry_b,
    ).after_schedule_mgr(HartModel::init())
}

/// The hart state the boot path reaches.
pub open spec fn boot_hart(idle_entry: u32, entry_a: u32, entry_b: u32) -> HartModel {
    ManagerModel::fresh().after_create_idle(idle_entry).after_create(entry_a).after_create(
        entry_b,
    ).after_schedule_hart(HartModel::init())
}

/// The boot path after the platform collaborators have run (data segment
/// and arena zeroed, initial stack established, trap vector installed):
/// creates the idle process and the two workers and calls `schedule` to
/// enter the first process — worker 0, whose synthesized frame resumes at
/// its entry point. Every failure branch is proved unreachable: boot
/// always succeeds.
pub fn kernel_main(idle_entry: usize, entry_a: usize, entry_b: usize) -> (r: Result<
    (ProcessManager, Hart),
    KernelError,
>)
    requires
        idle_entry <= u32::MAX as usize,
        entry_a <= u32::MAX as usize,
        entry_b <= u32::MAX as usize,
    ensures
        r is Ok,
        r matches Ok((mgr, hart)) ==> {
            &&& mgr@ == boot_manager(idle_entry as u32, entry_a as u32, entry_b as u32)
            &&& hart@ == boot_hart(idle_entry as u32, entry_a as u32, entry_b as u32)
            &&& mgr@.wf()
            &&& hart@.wf()
            &&& mgr@.current == CurrentProcess::Process(0)
            &&& hart@.frame[0] == entry_a as u32
        },
{
    let mut mgr = ProcessManager::new();
    mgr.create_idle(idle_entry);
    proof {
        assert(mgr@.table[0].state is Unused);
    }
    let created_a = mgr.create(entry_a);
    if created_a.is_err() {
        return Err(KernelError::InternalInconsistency);
    }
    proof {
        crate::process::lemma_create_occupies_first_unused(
            ManagerModel::fresh().after_create_idle(idle_entry as u32),
            entry_a as u32,
        );
        assert(mgr@.table[1].state is Unused);
    }
    let created_b = mgr.create(entry_b);
    if created_b.is_err() {
        return Err(KernelError::InternalInconsistency);
    }
    let mut hart = Hart::new();
    let scheduled = mgr.schedule(&mut hart);
    if scheduled.is_err() {
        return Err(KernelError::InternalInconsistency);
    }
    proof {
        let im = ManagerModel::fresh().after_create_idle(idle_entry as u32);
        let ma = im.after_create(entry_a as u32);
        let mb = ma.after_create(entry_b as u32);
        reveal_with_fuel(ManagerModel::first_unused_from, 4);
        reveal_with_fuel(ManagerModel::select_from, 4);
        assert(im.first_unused() == 0);
        assert(ma.first_unused() == 1);
        assert(mb.select_next() == CurrentProcess::Process(0));
        crate::context::lemma_frame_round_trip(
            zero_stack(),
            STACK_WORDS as int,
            init_frame(entry_a as u32),
        );
        assert(mb.slot(CurrentProcess::Process(0)).stack == stack_with_frame(
            zero_stack(),
            STACK_WORDS as int,
            init_frame(entry_a as u32),
        ));
    }
    Ok((mgr, hart))
}

} // verus!

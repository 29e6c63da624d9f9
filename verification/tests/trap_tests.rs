use kernel_core::KernelError;
use kernel_core::trap::GeneralRegs;
use kernel_core::trap::TrapCsrs;
use kernel_core::trap::build_trap_frame;
use kernel_core::trap::handle_trap;
use kernel_core::trap::restore_registers;
use kernel_core::trap::trap_entry;

fn distinct_regs() -> GeneralRegs {
    GeneralRegs {
        ra: 1,
        gp: 2,
        tp: 3,
        t0: 4,
        t1: 5,
        t2: 6,
        t3: 7,
        t4: 8,
        t5: 9,
        t6: 10,
        a0: 11,
        a1: 12,
        a2: 13,
        a3: 14,
        a4: 15,
        a5: 16,
        a6: 17,
        a7: 18,
        s0: 19,
        s1: 20,
        s2: 21,
        s3: 22,
        s4: 23,
        s5: 24,
        s6: 25,
        s7: 26,
        s8: 27,
        s9: 28,
        s10: 29,
        s11: 30,
        sp: 31,
    }
}

#[test]
fn illegal_instruction_trap_reports_cause_value_pc() {
    // cause 2 is the illegal-instruction exception
    let csrs = TrapCsrs { scause: 2, stval: 0x0000_dead, sepc: 0x8020_0042 };
    let regs = distinct_regs();
    let e = trap_entry(&regs, &csrs);
    assert_eq!(
        e,
        KernelError::UnexpectedTrap { cause: 2, value: 0x0000_dead, pc: 0x8020_0042 }
    );
}

#[test]
fn every_trap_is_fatal_never_resumed() {
    let regs = distinct_regs();
    for cause in [0u32, 5, 8, 13] {
        let csrs = TrapCsrs { scause: cause, stval: 0, sepc: 0x8000_0000 };
        let frame = build_trap_frame(&regs);
        let e = handle_trap(&frame, &csrs);
        // the dispatcher's only outcome is the fatal report
        assert!(matches!(e, KernelError::UnexpectedTrap { .. }));
    }
}

#[test]
fn full_save_then_restore_is_identity() {
    let regs = distinct_regs();
    let frame = build_trap_frame(&regs);
    let back = restore_registers(&frame);
    assert_eq!(back, regs);
}

//! Process-management core of a minimal single-core, supervisor-mode kernel
//! for a 32-bit RISC-V target: a cooperative round-robin scheduler, the
//! context-switch primitive, the trap entry and dispatch path, and a bump
//! physical-page allocator.
//!
//! The hardware-adjacent state that on the target lives in machine
//! registers and raw memory (the hart's callee-saved registers, the scratch
//! CSR, process stacks, the allocator arena) is modelled here as explicit
//! owned values threaded through every operation, so that the scheduling
//! policy, table management, register save/restore discipline and arena
//! bookkeeping are all verified. The platform collaborators that remain
//! outside this model (the boot stub, the trap-vector install, the `ecall`
//! into firmware) are fixed interfaces the core drives, not logic of its own.

use vstd::prelude::*;

pub mod common;
pub mod context;
pub mod kernel;
pub mod memory;
pub mod process;
pub mod sbi;
pub mod trap;

verus! {

/// The three fatal error kinds of the core. Every one is unconditionally
/// terminal: the caller reports it over the diagnostic channel and halts.
/// No error here is ever recovered and continued from.
#[derive(Clone, Copy, Debug, PartialEq, Eq, Structural)]
pub enum KernelError {
    /// The allocator arena is exhausted.
    ResourceExhausted,
    /// A hardware trap reached the dispatcher, which treats every trap as
    /// unexpected; carries the trap cause, trap value and interrupted pc.
    UnexpectedTrap { cause: u32, value: u32, pc: u32 },
    /// A programming-level contract violation: the table was full on
    /// `create`, or the scheduler selected a non-runnable or invalid slot.
    InternalInconsistency,
}

} // verus!

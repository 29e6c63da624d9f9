//! The cooperative context-switch state: the register subset the calling
//! convention designates as callee-preserved, plus the stack pointer and
//! the privileged scratch register the trap path consults.
//!
//! On hardware the switch primitive saves these registers onto the current
//! stack and reloads them from the next one in thirteen stores and thirteen
//! loads. The model keeps the registers as an explicit [`Hart`] value and
//! states that save/restore discipline exactly, so the round trip — a
//! switched-out context resumes precisely where it left off — is proved.

use vstd::prelude::*;

use crate::process::CurrentProcess;
use crate::process::STACK_WORDS;

verus! {

/// Words in one saved switch frame: the return address and the twelve
/// callee-saved registers s0..s11.
pub const SWITCH_FRAME_WORDS: usize = 13;

/// The hart's register state as the cooperative switch sees it: the return
/// address, the callee-saved registers, the stack pointer (a word index
/// into the running context's stack), and the scratch register that names
/// whose stack top the trap path may fall back on.
#[derive(Clone, Copy, Debug, PartialEq, Eq, Structural)]
pub struct Hart {
    pub ra: u32,
    pub sp: usize,
    pub s0: u32,
    pub s1: u32,
    pub s2: u32,
    pub s3: u32,
    pub s4: u32,
    pub s5: u32,
    pub s6: u32,
    pub s7: u32,
    pub s8: u32,
    pub s9: u32,
    pub s10: u32,
    pub s11: u32,
    pub sscratch: CurrentProcess,
}

/// The mathematical state of the hart: the thirteen frame words (return
/// address first, then s0..s11), the stack cursor, and the scratch tag.
#[verifier::ext_equal]
pub ghost struct HartModel {
    pub frame: Seq<u32>,
    pub sp: int,
    pub sscratch: CurrentProcess,
}

impl View for Hart {
    type V = HartModel;

    open spec fn view(&self) -> HartModel {
        HartModel {
            frame: seq![
                self.ra,
                self.s0,
                self.s1,
                self.s2,
                self.s3,
                self.s4,
                self.s5,
                self.s6,
                self.s7,
                self.s8,
                self.s9,
                self.s10,
                self.s11,
            ],
            sp: self.sp as int,
            sscratch: self.sscratch,
        }
    }
}

impl HartModel {
    /// The stack cursor always leaves room for one more frame below it and
    /// never lies past the stack top.
    pub open spec fn wf(self) -> bool {
        &&& self.frame.len() == SWITCH_FRAME_WORDS
        &&& SWITCH_FRAME_WORDS <= self.sp <= STACK_WORDS
    }

    /// The register state the boot collaborator hands the core: everything
    /// zeroed and the cursor at a stack top. The boot context runs on the
    /// platform-established initial stack; the model folds that onto the
    /// idle process's stack region, since the first switch away from the
    /// boot context records it in the idle slot.
    pub open spec fn init() -> HartModel {
        HartModel {
            frame: seq![0u32, 0u32, 0u32, 0u32, 0u32, 0u32, 0u32, 0u32, 0u32, 0u32, 0u32, 0u32, 0u32],
            sp: STACK_WORDS as int,
            sscratch: CurrentProcess::Idle,
        }
    }
}

impl Hart {
    /// The boot-time register state; see [`HartModel::init`].
    pub fn new() -> (h: Hart)
        ensures
            h@ == HartModel::init(),
            h@.wf(),
    {
        let h = Hart {
            ra: 0,
            sp: STACK_WORDS,
            s0: 0,
            s1: 0,
            s2: 0,
            s3: 0,
            s4: 0,
            s5: 0,
            s6: 0,
            s7: 0,
            s8: 0,
            s9: 0,
            s10: 0,
            s11: 0,
            sscratch: CurrentProcess::Idle,
        };
        proof {
            assert(h@ =~= HartModel::init());
        }
        h
    }
}

/// `stack` with a frame written at the top of the used region: the words
/// `[sp - SWITCH_FRAME_WORDS, sp)` replaced by `frame`, the rest untouched.
pub open spec fn stack_with_frame(stack: Seq<u32>, sp: int, frame: Seq<u32>) -> Seq<u32> {
    Seq::new(
        stack.len(),
        |i: int|
            if sp - SWITCH_FRAME_WORDS <= i < sp {
                frame[i - (sp - SWITCH_FRAME_WORDS)]
            } else {
                stack[i]
            },
    )
}

/// The frame read back from `stack` at cursor `sp`.
pub open spec fn frame_at(stack: Seq<u32>, sp: int) -> Seq<u32> {
    stack.subrange(sp, sp + SWITCH_FRAME_WORDS)
}

/// The hart after the restoring half of a switch from a stack whose cursor
/// is `sp`: the frame words loaded back into the registers and the cursor
/// popped past them. The scratch register is not part of the frame.
pub open spec fn hart_after_restore(h: HartModel, stack: Seq<u32>, sp: int) -> HartModel {
    HartModel { frame: frame_at(stack, sp), sp: sp + SWITCH_FRAME_WORDS, sscratch: h.sscratch }
}

/// A frame saved by the switch-out half is read back exactly by a later
/// switch-in from the same cursor, whatever the rest of the stack held.
pub proof fn lemma_frame_round_trip(stack: Seq<u32>, sp: int, frame: Seq<u32>)
    requires
        frame.len() == SWITCH_FRAME_WORDS,
        SWITCH_FRAME_WORDS <= sp <= stack.len(),
    ensures
        frame_at(stack_with_frame(stack, sp, frame), sp - SWITCH_FRAME_WORDS) == frame,
{
    assert(frame_at(stack_with_frame(stack, sp, frame), sp - SWITCH_FRAME_WORDS) =~= frame);
}

} // verus!

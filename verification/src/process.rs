//! The process manager and cooperative scheduler: a fixed-capacity table
//! of process slots, one distinguished idle process, round-robin selection
//! with idle fallback, and the switch of the hart between saved contexts.
//!
//! Every process owns a private fixed-size stack. While a process is
//! switched out, the words at its saved stack cursor hold its switch frame
//! (return address and callee-saved registers); while it runs, that cursor
//! is meaningless and the live state is the [`Hart`]. Scheduling is
//! cooperative: control moves only when the running process calls
//! [`ProcessManager::schedule`], and a process that never yields
//! monopolizes the hart indefinitely.

use vstd::prelude::*;

use crate::KernelError;
use crate::context::Hart;
use crate::context::HartModel;
use crate::context::SWITCH_FRAME_WORDS;
use crate::context::frame_at;
use crate::context::hart_after_restore;
use crate::context::stack_with_frame;
use vstd::pervasive::VecAdditionalExecFns;

verus! {

/// Capacity of the process table; the idle process lives outside it.
pub const MAX_PROCESSES: usize = 3;

/// Words in one process stack (8 KiB of 32-bit words).
pub const STACK_WORDS: usize = 8192 / 4;

/// The lifecycle state of a table slot.
#[derive(Clone, Copy, Debug, PartialEq, Eq, Structural)]
pub enum ProcessState {
    Unused,
    Runnable,
}

/// One process: its identity, state, saved stack cursor, and private
/// stack. The stack is owned exclusively, never resized, never shared.
#[derive(Debug)]
pub struct Process {
    pub pid: isize,
    pub state: ProcessState,
    pub sp: usize,
    pub stack: Vec<u32>,
}

/// The mathematical state of a process. The stack cursor `sp` is a word
/// index into the process's own stack, meaningful only while the process
/// is not currently executing.
#[verifier::ext_equal]
pub ghost struct ProcessModel {
    pub pid: int,
    pub state: ProcessState,
    pub sp: int,
    pub stack: Seq<u32>,
}

impl View for Process {
    type V = ProcessModel;

    open spec fn view(&self) -> ProcessModel {
        ProcessModel {
            pid: self.pid as int,
            state: self.state,
            sp: self.sp as int,
            stack: self.stack@,
        }
    }
}

/// A stack of all-zero words.
pub open spec fn zero_stack() -> Seq<u32> {
    Seq::new(STACK_WORDS as nat, |i: int| 0u32)
}

/// A process as [`Process::new`] builds it: unused, zeroed stack.
pub open spec fn fresh_process(pid: int) -> ProcessModel {
    ProcessModel { pid, state: ProcessState::Unused, sp: 0, stack: zero_stack() }
}

/// The frame a freshly created process is given: it looks exactly like one
/// produced by a normal switch-out — the return-address word holds the
/// entry point and every callee-saved word is zero.
pub open spec fn init_frame(entry: u32) -> Seq<u32> {
    seq![entry, 0u32, 0u32, 0u32, 0u32, 0u32, 0u32, 0u32, 0u32, 0u32, 0u32, 0u32, 0u32]
}

impl ProcessModel {
    /// The stack always has its fixed size.
    pub open spec fn wf(self) -> bool {
        self.stack.len() == STACK_WORDS
    }

    /// A saved cursor from which a switch-in may read a whole frame.
    pub open spec fn switchable(self) -> bool {
        0 <= self.sp <= STACK_WORDS - SWITCH_FRAME_WORDS
    }

    /// The frame stored at the saved cursor.
    pub open spec fn saved_frame(self) -> Seq<u32> {
        frame_at(self.stack, self.sp)
    }

    /// The process after the saving half of a switch under hart state `h`:
    /// the hart's frame pushed below the cursor and the cursor recorded.
    pub open spec fn after_save(self, h: HartModel) -> ProcessModel {
        ProcessModel {
            pid: self.pid,
            state: self.state,
            sp: h.sp - SWITCH_FRAME_WORDS,
            stack: stack_with_frame(self.stack, h.sp, h.frame),
        }
    }

    /// The process after context synthesis at creation: runnable, with the
    /// initial frame at the stack top and the cursor pointing at it.
    pub open spec fn after_create(self, entry: u32) -> ProcessModel {
        ProcessModel {
            pid: self.pid,
            state: ProcessState::Runnable,
            sp: STACK_WORDS - SWITCH_FRAME_WORDS,
            stack: stack_with_frame(self.stack, STACK_WORDS as int, init_frame(entry)),
        }
    }
}

impl Process {
    /// A fresh, unused process slot with the given identity and a zeroed
    /// stack.
    pub fn new(pid: isize) -> (p: Process)
        ensures
            p@ == fresh_process(pid as int),
    {
        let mut stack: Vec<u32> = Vec::new();
        let mut i: usize = 0;
        while i < STACK_WORDS
            invariant
                i <= STACK_WORDS,
                stack@.len() == i,
                forall|j: int| 0 <= j < i ==> stack@[j] == 0,
            decreases STACK_WORDS - i,
        {
            stack.push(0);
            i += 1;
        }
        let p = Process { pid, state: ProcessState::Unused, sp: 0, stack };
        proof {
            assert(p@.stack =~= zero_stack());
            assert(p@ =~= fresh_process(pid as int));
        }
        p
    }
}

/// The saving half of the context switch: the hart's thirteen frame words
/// are stored onto `p`'s stack just below the hart's cursor — one store
/// per word, return address first — and the resulting cursor is recorded
/// in `p.sp`.
pub fn switch_out(p: &mut Process, hart: &Hart)
    requires
        old(p)@.wf(),
        hart@.wf(),
    ensures
        final(p)@ == old(p)@.after_save(hart@),
        final(p)@.wf(),
        final(p)@.switchable(),
{
    let base = hart.sp - SWITCH_FRAME_WORDS;
    p.stack.set(base, hart.ra);
    p.stack.set(base + 1, hart.s0);
    p.stack.set(base + 2, hart.s1);
    p.stack.set(base + 3, hart.s2);
    p.stack.set(base + 4, hart.s3);
    p.stack.set(base + 5, hart.s4);
    p.stack.set(base + 6, hart.s5);
    p.stack.set(base + 7, hart.s6);
    p.stack.set(base + 8, hart.s7);
    p.stack.set(base + 9, hart.s8);
    p.stack.set(base + 10, hart.s9);
    p.stack.set(base + 11, hart.s10);
    p.stack.set(base + 12, hart.s11);
    p.sp = base;
    proof {
        assert(p@.stack =~= old(p)@.after_save(hart@).stack);
        assert(p@ =~= old(p)@.after_save(hart@));
    }
}

/// The restoring half of the context switch: the thirteen frame words at
/// `p`'s saved cursor are loaded back into the hart — one load per word —
/// and the cursor popped past them. Execution resumes at the restored
/// return address: the entry point for a fresh process, or the point just
/// after its own earlier switch for one switched out before.
pub fn switch_in(p: &Process, hart: &mut Hart)
    requires
        p@.wf(),
        p@.switchable(),
    ensures
        final(hart)@ == hart_after_restore(old(hart)@, p@.stack, p@.sp),
        final(hart)@.wf(),
{
    hart.ra = p.stack[p.sp];
    hart.s0 = p.stack[p.sp + 1];
    hart.s1 = p.stack[p.sp + 2];
    hart.s2 = p.stack[p.sp + 3];
    hart.s3 = p.stack[p.sp + 4];
    hart.s4 = p.stack[p.sp + 5];
    hart.s5 = p.stack[p.sp + 6];
    hart.s6 = p.stack[p.sp + 7];
    hart.s7 = p.stack[p.sp + 8];
    hart.s8 = p.stack[p.sp + 9];
    hart.s9 = p.stack[p.sp + 10];
    hart.s10 = p.stack[p.sp + 11];
    hart.s11 = p.stack[p.sp + 12];
    hart.sp = p.sp + SWITCH_FRAME_WORDS;
    proof {
        assert(hart@.frame =~= frame_at(p@.stack, p@.sp));
        assert(hart@ =~= hart_after_restore(old(hart)@, p@.stack, p@.sp));
    }
}

/// Switch round trip: a context switched out under hart state `h` and
/// later switched back in — from any hart state `h2` that ran meanwhile —
/// resumes exactly where it left off, with the return address, every
/// callee-saved register and the stack cursor intact.
pub proof fn lemma_switch_round_trip(p: ProcessModel, h: HartModel, h2: HartModel)
    requires
        p.wf(),
        h.wf(),
    ensures
        hart_after_restore(h2, p.after_save(h).stack, p.after_save(h).sp).frame == h.frame,
        hart_after_restore(h2, p.after_save(h).stack, p.after_save(h).sp).sp == h.sp,
{
    crate::context::lemma_frame_round_trip(p.stack, h.sp, h.frame);
}

/// The identity of what the hart is executing: the idle process or the
/// table slot at an index.
#[derive(Clone, Copy, Debug, PartialEq, Eq, Structural)]
pub enum CurrentProcess {
    Idle,
    Process(usize),
}

impl CurrentProcess {
    /// The scheduling position of this identity: a table slot's own index,
    /// with the idle process at the reserved position -1.
    pub open spec fn spec_as_int(self) -> int {
        match self {
            CurrentProcess::Idle => -1,
            CurrentProcess::Process(pid) => pid as int,
        }
    }

    /// See [`Self::spec_as_int`].
    pub fn as_isize(&self) -> (r: isize)
        requires
            self matches CurrentProcess::Process(pid) ==> pid <= isize::MAX as usize,
        ensures
            r == self.spec_as_int(),
    {
        match self {
            CurrentProcess::Idle => -1,
            CurrentProcess::Process(pid) => (*pid) as isize,
        }
    }
}

/// The process manager: the fixed table of slots, the distinguished idle
/// process, and the identity currently executing. For non-idle processes,
/// pid and table index coincide.
#[derive(Debug)]
pub struct ProcessManager {
    processe_table: Vec<Process>,
    pub current_process: CurrentProcess,
    idle_process: Process,
}

/// The mathematical state of the process manager.
#[verifier::ext_equal]
pub ghost struct ManagerModel {
    pub table: Seq<ProcessModel>,
    pub current: CurrentProcess,
    pub idle: ProcessModel,
}

impl View for ProcessManager {
    type V = ManagerModel;

    closed spec fn view(&self) -> ManagerModel {
        ManagerModel {
            table: self.processe_table@.map_values(|p: Process| p@),
            current: self.current_process,
            idle: self.idle_process@,
        }
    }
}

impl ManagerModel {
    /// Whether `i` is the index of the currently executing table slot.
    pub open spec fn is_current(self, i: int) -> bool {
        self.current matches CurrentProcess::Process(p) && p == i
    }

    /// Whether table slot `i` exists and is runnable.
    pub open spec fn runnable(self, i: int) -> bool {
        0 <= i < MAX_PROCESSES && self.table[i].state is Runnable
    }

    /// Whether any table slot is runnable.
    pub open spec fn has_runnable(self) -> bool {
        exists|i: int| self.runnable(i)
    }

    /// Whether any table slot is still unused.
    pub open spec fn has_unused(self) -> bool {
        exists|i: int| 0 <= i < MAX_PROCESSES && (#[trigger] self.table[i]).state is Unused
    }

    /// The well-formedness invariant every operation preserves: the table
    /// has its fixed capacity; pids coincide with slot indices, the idle
    /// process holding the reserved -1; the current tag is in range and
    /// points at a runnable slot; and every context that could be switched
    /// in — a runnable slot other than the current one, and the idle
    /// process whenever it is not running — has a whole frame saved at its
    /// cursor.
    pub open spec fn wf(self) -> bool {
        &&& self.table.len() == MAX_PROCESSES
        &&& forall|i: int| 0 <= i < MAX_PROCESSES ==> (#[trigger] self.table[i]).wf()
        &&& forall|i: int| 0 <= i < MAX_PROCESSES ==> (#[trigger] self.table[i]).pid == i
        &&& self.idle.wf()
        &&& self.idle.pid == -1
        &&& (self.current matches CurrentProcess::Process(p)
            ==> p < MAX_PROCESSES && self.table[p as int].state is Runnable)
        &&& forall|i: int|
            0 <= i < MAX_PROCESSES && (#[trigger] self.table[i]).state is Runnable
                && !self.is_current(i) ==> self.table[i].switchable()
        &&& (self.current is Process ==> self.idle.switchable())
    }

    /// The manager as [`ProcessManager::new`] builds it: every slot
    /// unused, the idle record fresh, the boot context tagged idle.
    pub open spec fn fresh() -> ManagerModel {
        ManagerModel {
            table: seq![fresh_process(0), fresh_process(1), fresh_process(2)],
            current: CurrentProcess::Idle,
            idle: fresh_process(-1),
        }
    }

    /// The slot record an identity names.
    pub open spec fn slot(self, c: CurrentProcess) -> ProcessModel {
        match c {
            CurrentProcess::Idle => self.idle,
            CurrentProcess::Process(i) => self.table[i as int],
        }
    }

    /// The manager with the record an identity names replaced.
    pub open spec fn with_slot(self, c: CurrentProcess, p: ProcessModel) -> ManagerModel {
        match c {
            CurrentProcess::Idle => ManagerModel { idle: p, ..self },
            CurrentProcess::Process(i) => ManagerModel {
                table: self.table.update(i as int, p),
                ..self
            },
        }
    }

    /// The scan's first table position: one past the current slot, with
    /// idle treated as position -1.
    pub open spec fn scan_base(self) -> int {
        match self.current {
            CurrentProcess::Idle => 0,
            CurrentProcess::Process(p) => p + 1,
        }
    }

    /// The selection reached after ruling out the first `k` scan offsets.
    pub open spec fn select_from(self, k: int) -> CurrentProcess
        decreases MAX_PROCESSES - k,
    {
        if k < 0 || k >= MAX_PROCESSES {
            CurrentProcess::Idle
        } else {
            let s = (self.scan_base() + k) % (MAX_PROCESSES as int);
            if self.table[s].state is Runnable {
                CurrentProcess::Process(s as usize)
            } else {
                self.select_from(k + 1)
            }
        }
    }

    /// Round-robin selection with idle fallback: the first runnable slot
    /// found scanning forward from the position after the current one,
    /// modulo the table capacity (so a running process's own slot is the
    /// last position scanned); Idle when no slot is runnable.
    pub open spec fn select_next(self) -> CurrentProcess {
        self.select_from(0)
    }

    /// The manager after `create_idle`: context synthesis applied to the
    /// idle record.
    pub open spec fn after_create_idle(self, entry: u32) -> ManagerModel {
        ManagerModel { idle: self.idle.after_create(entry), ..self }
    }

    /// The first unused slot at or after index `k`, or the capacity when
    /// none exists.
    pub open spec fn first_unused_from(self, k: int) -> int
        decreases MAX_PROCESSES - k,
    {
        if k < 0 || k >= MAX_PROCESSES {
            MAX_PROCESSES as int
        } else if self.table[k].state is Unused {
            k
        } else {
            self.first_unused_from(k + 1)
        }
    }

    /// The first unused slot, or the capacity when the table is full.
    pub open spec fn first_unused(self) -> int {
        self.first_unused_from(0)
    }

    /// The manager after a successful `create`: context synthesis applied
    /// to the first unused slot.
    pub open spec fn after_create(self, entry: u32) -> ManagerModel {
        let u = self.first_unused();
        ManagerModel { table: self.table.update(u, self.table[u].after_create(entry)), ..self }
    }

    /// The manager after one `schedule` call under hart state `h`: no
    /// change when the selection is the current identity (a legal no-op
    /// self-transition); otherwise the current record receives the saved
    /// hart frame and the selection becomes current.
    pub open spec fn after_schedule_mgr(self, h: HartModel) -> ManagerModel {
        let nxt = self.select_next();
        if nxt == self.current {
            self
        } else {
            ManagerModel {
                current: nxt,
                ..self.with_slot(self.current, self.slot(self.current).after_save(h))
            }
        }
    }

    /// The hart after one `schedule` call: the selection published to the
    /// scratch register in every case, and, when control moves, the
    /// selected record's frame restored.
    pub open spec fn after_schedule_hart(self, h: HartModel) -> HartModel {
        let nxt = self.select_next();
        let h1 = HartModel { sscratch: nxt, ..h };
        if nxt == self.current {
            h1
        } else {
            hart_after_restore(h1, self.slot(nxt).stack, self.slot(nxt).sp)
        }
    }
}

/// Context synthesis: on `p`'s private stack, builds a context that looks
/// exactly like one produced by a normal switch-out — the return-address
/// word holds `entry`, all twelve callee-saved words are zero — marks the
/// slot runnable and records the resulting cursor.
fn synthesize_context(p: &mut Process, entry: u32)
    requires
        old(p)@.wf(),
    ensures
        final(p)@ == old(p)@.after_create(entry),
        final(p)@.wf(),
        final(p)@.switchable(),
{
    p.state = ProcessState::Runnable;
    let top = STACK_WORDS;
    p.stack.set(top - 1, 0);  // s11
    p.stack.set(top - 2, 0);  // s10
    p.stack.set(top - 3, 0);  // s9
    p.stack.set(top - 4, 0);  // s8
    p.stack.set(top - 5, 0);  // s7
    p.stack.set(top - 6, 0);  // s6
    p.stack.set(top - 7, 0);  // s5
    p.stack.set(top - 8, 0);  // s4
    p.stack.set(top - 9, 0);  // s3
    p.stack.set(top - 10, 0);  // s2
    p.stack.set(top - 11, 0);  // s1
    p.stack.set(top - 12, 0);  // s0
    p.stack.set(top - 13, entry);  // ra
    p.sp = top - 13;
    proof {
        assert(p@.stack =~= old(p)@.after_create(entry).stack);
        assert(p@ =~= old(p)@.after_create(entry));
    }
}

/// Every selection is either a runnable slot or the idle fallback.
proof fn lemma_select_from_runnable(m: ManagerModel, k: int)
    requires
        m.table.len() == MAX_PROCESSES,
    ensures
        m.select_from(k) matches CurrentProcess::Process(n) ==> m.runnable(n as int),
    decreases MAX_PROCESSES - k,
{
    if 0 <= k < MAX_PROCESSES {
        let s = (m.scan_base() + k) % (MAX_PROCESSES as int);
        if !(m.table[s].state is Runnable) {
            lemma_select_from_runnable(m, k + 1);
        }
    }
}

impl ProcessManager {
    /// A manager whose table slots are all unused, with the boot context
    /// tagged as the idle process.
    pub fn new() -> (m: ProcessManager)
        ensures
            m@ == ManagerModel::fresh(),
            m@.wf(),
    {
        let mut table: Vec<Process> = Vec::new();
        table.push(Process::new(0));
        table.push(Process::new(1));
        table.push(Process::new(2));
        let m = ProcessManager {
            processe_table: table,
            current_process: CurrentProcess::Idle,
            idle_process: Process::new(-1),
        };
        proof {
            assert(m@.table =~= ManagerModel::fresh().table);
            assert(m@ =~= ManagerModel::fresh());
        }
        m
    }

    /// Applies context synthesis to the reserved idle process, so that
    /// entering it for the first time lands at `entry`.
    pub fn create_idle(&mut self, entry: usize)
        requires
            old(self)@.wf(),
            entry <= u32::MAX as usize,
        ensures
            final(self)@ == old(self)@.after_create_idle(entry as u32),
            final(self)@.wf(),
    {
        synthesize_context(&mut self.idle_process, entry as u32);
        proof {
            assert(self@ =~= old(self)@.after_create_idle(entry as u32));
        }
    }

    /// Scans the table for the first unused slot and synthesizes a context
    /// for it; fails with `InternalInconsistency` — the system was sized
    /// too small — if and only if no slot is unused.
    pub fn create(&mut self, entry: usize) -> (r: Result<(), KernelError>)
        requires
            old(self)@.wf(),
            entry <= u32::MAX as usize,
        ensures
            final(self)@.wf(),
            r is Ok <==> old(self)@.has_unused(),
            r is Ok ==> final(self)@ == old(self)@.after_create(entry as u32),
            r is Err ==> r == Err::<(), KernelError>(KernelError::InternalInconsistency)
                && final(self)@ == old(self)@,
    {
        let mut i: usize = 0;
        while i < MAX_PROCESSES
            invariant
                i <= MAX_PROCESSES,
                *self == *old(self),
                self@.wf(),
                forall|j: int| 0 <= j < i ==> !((#[trigger] self@.table[j]).state is Unused),
            decreases MAX_PROCESSES - i,
        {
            if self.processe_table[i].state == ProcessState::Unused {
                proof {
                    lemma_first_unused_at(self@, i as int);
                }
                synthesize_context(&mut self.processe_table[i], entry as u32);
                proof {
                    assert(self@.table =~= old(self)@.after_create(entry as u32).table);
                    assert(self@ =~= old(self)@.after_create(entry as u32));
                    assert(forall|j: int|
                        0 <= j < MAX_PROCESSES && j != i ==> self@.table[j]
                            == old(self)@.table[j]);
                }
                return Ok(());
            }
            i += 1;
        }
        Err(KernelError::InternalInconsistency)
    }

    /// The identity currently executing, as the model sees it.
    pub fn current(&self) -> (c: CurrentProcess)
        ensures
            c == self@.current,
    {
        self.current_process
    }

    /// A reference to the record of the active process, idle or indexed.
    pub fn get_current(&self) -> (p: &Process)
        requires
            self@.wf(),
        ensures
            p@ == self@.slot(self@.current),
    {
        match self.current_process {
            CurrentProcess::Idle => &self.idle_process,
            CurrentProcess::Process(pid) => &self.processe_table[pid],
        }
    }

    /// The round-robin scan, as executable code: the first runnable slot
    /// at or after the position past the current one, else idle.
    fn select_next_exec(&self) -> (c: CurrentProcess)
        requires
            self@.wf(),
        ensures
            c == self@.select_next(),
            c matches CurrentProcess::Process(n) ==> self@.runnable(n as int),
    {
        proof {
            lemma_select_from_runnable(self@, 0);
        }
        let base: usize = match self.current_process {
            CurrentProcess::Idle => 0,
            CurrentProcess::Process(p) => p + 1,
        };
        let mut k: usize = 0;
        while k < MAX_PROCESSES
            invariant
                k <= MAX_PROCESSES,
                self@.wf(),
                base == self@.scan_base(),
                self@.select_next() == self@.select_from(k as int),
            decreases MAX_PROCESSES - k,
        {
            let s = (base + k) % MAX_PROCESSES;
            if self.processe_table[s].state == ProcessState::Runnable {
                return CurrentProcess::Process(s);
            }
            k += 1;
        }
        CurrentProcess::Idle
    }

    /// Round-robin scheduling with idle fallback. Selects the next
    /// identity, publishes its stack top to the scratch register the trap
    /// path consults, and transfers control: a self-transition (the
    /// current identity selected again, idle included) continues without a
    /// switch; any other pairing records the new current identity and
    /// switches the hart between the two saved-context slots. A selection
    /// of an invalid or non-runnable slot would be the fatal
    /// `InternalInconsistency`; the contract proves the guard dead, so a
    /// well-formed manager always schedules successfully.
    pub fn schedule(&mut self, hart: &mut Hart) -> (r: Result<(), KernelError>)
        requires
            old(self)@.wf(),
            old(hart)@.wf(),
        ensures
            r is Ok,
            final(self)@ == old(self)@.after_schedule_mgr(old(hart)@),
            final(hart)@ == old(self)@.after_schedule_hart(old(hart)@),
            final(self)@.wf(),
            final(hart)@.wf(),
    {
        let next = self.select_next_exec();
        // publish the selected stack top for the trap path before any
        // transfer, so a trap striking mid-switch finds a safe stack
        hart.sscratch = next;
        if let CurrentProcess::Process(n) = next {
            if n >= MAX_PROCESSES {
                return Err(KernelError::InternalInconsistency);
            }
            if !(self.processe_table[n].state == ProcessState::Runnable) {
                return Err(KernelError::InternalInconsistency);
            }
        }
        let prev = self.current_process;
        match (prev, next) {
            (CurrentProcess::Idle, CurrentProcess::Idle) => {
                // idle fallback with nothing runnable: stay on idle
                proof {
                    assert(self@ =~= old(self)@.after_schedule_mgr(old(hart)@));
                    assert(hart@ =~= old(self)@.after_schedule_hart(old(hart)@));
                }
                Ok(())
            }
            (CurrentProcess::Idle, CurrentProcess::Process(n)) => {
                self.current_process = next;
                switch_out(&mut self.idle_process, hart);
                switch_in(&self.processe_table[n], hart);
                proof {
                    assert(self@ =~= old(self)@.after_schedule_mgr(old(hart)@));
                    assert(hart@ =~= old(self)@.after_schedule_hart(old(hart)@));
                }
                Ok(())
            }
            (CurrentProcess::Process(p), CurrentProcess::Idle) => {
                self.current_process = next;
                switch_out(&mut self.processe_table[p], hart);
                switch_in(&self.idle_process, hart);
                proof {
                    assert(self@.table =~= old(self)@.after_schedule_mgr(old(hart)@).table);
                    assert(self@ =~= old(self)@.after_schedule_mgr(old(hart)@));
                    assert(hart@ =~= old(self)@.after_schedule_hart(old(hart)@));
                }
                Ok(())
            }
            (CurrentProcess::Process(p), CurrentProcess::Process(n)) => {
                if p == n {
                    // self-transition: legal, and a no-op
                    proof {
                        assert(self@ =~= old(self)@.after_schedule_mgr(old(hart)@));
                        assert(hart@ =~= old(self)@.after_schedule_hart(old(hart)@));
                    }
                    Ok(())
                } else {
                    self.current_process = next;
                    switch_out(&mut self.processe_table[p], hart);
                    switch_in(&self.processe_table[n], hart);
                    proof {
                        assert(self@.table =~= old(self)@.after_schedule_mgr(old(hart)@).table);
                        assert(self@ =~= old(self)@.after_schedule_mgr(old(hart)@));
                        assert(hart@ =~= old(self)@.after_schedule_hart(old(hart)@));
                    }
                    Ok(())
                }
            }
        }
    }
}

/// When the slots before `i` are occupied and slot `i` is unused, `i` is
/// the first unused slot.
proof fn lemma_first_unused_at(m: ManagerModel, i: int)
    requires
        m.table.len() == MAX_PROCESSES,
        0 <= i < MAX_PROCESSES,
        forall|j: int| 0 <= j < i ==> !((#[trigger] m.table[j]).state is Unused),
        m.table[i].state is Unused,
    ensures
        m.first_unused() == i,
{
    lemma_first_unused_from_at(m, 0, i);
}

proof fn lemma_first_unused_from_at(m: ManagerModel, k: int, i: int)
    requires
        m.table.len() == MAX_PROCESSES,
        0 <= k <= i < MAX_PROCESSES,
        forall|j: int| k <= j < i ==> !((#[trigger] m.table[j]).state is Unused),
        m.table[i].state is Unused,
    ensures
        m.first_unused_from(k) == i,
    decreases i - k,
{
    if k < i {
        lemma_first_unused_from_at(m, k + 1, i);
    }
}

impl ManagerModel {
    /// How many scan steps after the current position slot `i` is
    /// reached: 0 for the slot right after the current one, up to
    /// capacity - 1 for the current slot itself.
    pub open spec fn scan_offset(self, i: int) -> int {
        (i - self.scan_base()) % (MAX_PROCESSES as int)
    }

    /// The manager after a sequence of successful `create` calls, one per
    /// entry point, in order.
    pub open spec fn after_creates(self, entries: Seq<u32>) -> ManagerModel
        decreases entries.len(),
    {
        if entries.len() == 0 {
            self
        } else {
            self.after_create(entries.first()).after_creates(entries.drop_first())
        }
    }
}

/// Characterizes the first-unused scan from `k`: its result is the least
/// unused index at or after `k`, or the capacity when none exists.
proof fn lemma_first_unused_from_char(m: ManagerModel, k: int)
    requires
        m.table.len() == MAX_PROCESSES,
        0 <= k <= MAX_PROCESSES,
    ensures
        k <= m.first_unused_from(k) <= MAX_PROCESSES,
        m.first_unused_from(k) < MAX_PROCESSES ==> m.table[m.first_unused_from(k)].state is Unused,
        forall|j: int|
            k <= j < m.first_unused_from(k) ==> !((#[trigger] m.table[j]).state is Unused),
    decreases MAX_PROCESSES - k,
{
    if k < MAX_PROCESSES && !(m.table[k].state is Unused) {
        lemma_first_unused_from_char(m, k + 1);
    }
}

/// Table occupation — the single-call law behind slot distinctness: a
/// successful `create` acts on the first unused slot, a slot that was
/// previously unused and becomes runnable, and leaves every other slot,
/// the current tag and the idle record untouched. Occupied slots are never
/// reused, so any sequence of creations occupies pairwise distinct slots.
pub proof fn lemma_create_occupies_first_unused(m: ManagerModel, entry: u32)
    requires
        m.wf(),
        m.has_unused(),
    ensures
        0 <= m.first_unused() < MAX_PROCESSES,
        m.table[m.first_unused()].state is Unused,
        m.after_create(entry).table[m.first_unused()].state is Runnable,
        forall|j: int|
            0 <= j < MAX_PROCESSES && j != m.first_unused()
                ==> m.after_create(entry).table[j] == m.table[j],
        m.after_create(entry).current == m.current,
        m.after_create(entry).idle == m.idle,
        m.after_create(entry).wf(),
{
    lemma_first_unused_from_char(m, 0);
    let u = m.first_unused();
    if u == MAX_PROCESSES {
        let w = choose|i: int| 0 <= i < MAX_PROCESSES && (#[trigger] m.table[i]).state is Unused;
        assert(!(m.table[w].state is Unused));
        assert(false);
    }
}

/// Table capacity — slots fill in index order: from a fresh manager, a
/// sequence of `create` calls up to the table capacity occupies slot 0,
/// then slot 1, and so on, each previously unused; when the sequence
/// reaches the capacity no unused slot remains, so the next call is the
/// fatal one (`create` succeeds if and only if a slot is unused).
pub proof fn lemma_create_sequence_from_fresh(entries: Seq<u32>)
    requires
        entries.len() <= MAX_PROCESSES,
    ensures
        forall|i: int|
            0 <= i < entries.len()
                ==> ManagerModel::fresh().after_creates(entries).table[i]
                    == fresh_process(i).after_create(entries[i]),
        forall|i: int|
            entries.len() <= i < MAX_PROCESSES
                ==> ManagerModel::fresh().after_creates(entries).table[i] == fresh_process(i),
        entries.len() == MAX_PROCESSES
            ==> !ManagerModel::fresh().after_creates(entries).has_unused(),
{
    let m = ManagerModel::fresh();
    lemma_creates_fill(m, entries, 0);
    if entries.len() == MAX_PROCESSES {
        assert forall|i: int| 0 <= i < MAX_PROCESSES implies
            !((#[trigger] m.after_creates(entries).table[i]).state is Unused) by {
            assert(m.after_creates(entries).table[i] == fresh_process(i).after_create(entries[i]));
        }
    }
}

/// The induction behind [`lemma_create_sequence_from_fresh`]: creations
/// applied to a table whose unused slots form the suffix from `k` fill
/// that suffix in index order.
proof fn lemma_creates_fill(m: ManagerModel, entries: Seq<u32>, k: int)
    requires
        m.table.len() == MAX_PROCESSES,
        0 <= k,
        k + entries.len() <= MAX_PROCESSES,
        forall|j: int| 0 <= j < k ==> !((#[trigger] m.table[j]).state is Unused),
        forall|j: int| k <= j < MAX_PROCESSES ==> (#[trigger] m.table[j]).state is Unused,
    ensures
        forall|i: int| 0 <= i < k ==> m.after_creates(entries).table[i] == m.table[i],
        forall|i: int|
            k <= i < k + entries.len()
                ==> m.after_creates(entries).table[i] == m.table[i].after_create(entries[i - k]),
        forall|i: int|
            k + entries.len() <= i < MAX_PROCESSES
                ==> m.after_creates(entries).table[i] == m.table[i],
        m.after_creates(entries).current == m.current,
        m.after_creates(entries).idle == m.idle,
    decreases entries.len(),
{
    if entries.len() > 0 {
        lemma_first_unused_at(m, k);
        let m1 = m.after_create(entries.first());
        lemma_creates_fill(m1, entries.drop_first(), k + 1);
        assert forall|i: int| k <= i < k + entries.len() implies
            m.after_creates(entries).table[i] == m.table[i].after_create(entries[i - k]) by {
            if i > k {
                assert(m1.after_creates(entries.drop_first()).table[i]
                    == m1.table[i].after_create(entries.drop_first()[i - (k + 1)]));
                assert(entries.drop_first()[i - (k + 1)] == entries[i - k]);
            }
        }
    }
}

/// The scan position visited at offset `k` is the slot whose scan offset
/// is `k`.
proof fn lemma_scan_offset_inverse(m: ManagerModel, i: int)
    requires
        m.wf(),
        0 <= i < MAX_PROCESSES,
    ensures
        0 <= m.scan_offset(i) < MAX_PROCESSES,
        (m.scan_base() + m.scan_offset(i)) % (MAX_PROCESSES as int) == i,
{
    let b = m.scan_base();
    let n = MAX_PROCESSES as int;
    assert(0 <= (i - b) % n < n) by (nonlinear_arith)
        requires
            n == 3,
    ;
    assert((b + (i - b) % n) % n == i) by (nonlinear_arith)
        requires
            n == 3,
            0 <= i < n,
            -1 <= b - 1 < n,
    ;
}

/// Round-robin selection, characterized: the scheduler falls back to idle
/// exactly when no slot is runnable, and otherwise selects the runnable
/// slot the scan meets first — the one with the least offset past the
/// current position, which visits runnable slots in increasing slot
/// order, wrapping.
pub proof fn lemma_select_round_robin(m: ManagerModel)
    requires
        m.wf(),
    ensures
        m.select_next() is Idle <==> !m.has_runnable(),
        m.select_next() matches CurrentProcess::Process(n) ==> m.runnable(n as int)
            && forall|j: int|
                m.runnable(j) ==> m.scan_offset(n as int) <= #[trigger] m.scan_offset(j),
{
    reveal_with_fuel(ManagerModel::select_from, 5);
    if m.has_runnable() {
        let w = choose|i: int| m.runnable(i);
        lemma_scan_offset_inverse(m, w);
        assert(m.select_next() is Process);
    }
    match m.select_next() {
        CurrentProcess::Idle => {}
        CurrentProcess::Process(sel) => {
            lemma_select_from_runnable(m, 0);
            assert forall|j: int| m.runnable(j) implies
                m.scan_offset(sel as int) <= #[trigger] m.scan_offset(j) by {
                lemma_scan_offset_inverse(m, j);
                lemma_scan_offset_inverse(m, sel as int);
            }
        }
    }
}

/// Idle fallback: with no runnable slot the current identity is idle, the
/// selection is idle, and a `schedule` call changes nothing but the
/// scratch tag — so repeated calls from idle stay on idle.
pub proof fn lemma_idle_fallback(m: ManagerModel, h: HartModel)
    requires
        m.wf(),
        !m.has_runnable(),
    ensures
        m.current is Idle,
        m.select_next() is Idle,
        m.after_schedule_mgr(h) == m,
        m.after_schedule_hart(h) == (HartModel { sscratch: CurrentProcess::Idle, ..h }),
{
    lemma_select_round_robin(m);
    match m.current {
        CurrentProcess::Idle => {}
        CurrentProcess::Process(p) => {
            assert(m.runnable(p as int));
        }
    }
}

/// One `schedule` step preserves well-formedness, leaves every slot's
/// lifecycle state as it was, and makes the selection current.
pub proof fn lemma_schedule_preserves(m: ManagerModel, h: HartModel)
    requires
        m.wf(),
        h.wf(),
    ensures
        m.after_schedule_mgr(h).wf(),
        m.after_schedule_hart(h).wf(),
        m.after_schedule_mgr(h).current == m.select_next(),
        forall|i: int|
            0 <= i < MAX_PROCESSES
                ==> (#[trigger] m.after_schedule_mgr(h).table[i]).state == m.table[i].state,
        m.after_schedule_mgr(h).idle.state == m.idle.state,
{
    lemma_select_round_robin(m);
    let nxt = m.select_next();
    if nxt != m.current {
        match nxt {
            CurrentProcess::Idle => {}
            CurrentProcess::Process(sel) => {
                assert(m.runnable(sel as int));
            }
        }
    }
}

/// The slot after `p` in cyclic table order.
pub open spec fn succ_slot(p: int) -> int {
    if p + 1 < MAX_PROCESSES { p + 1 } else { 0 }
}

/// With every slot runnable, the scheduler always selects the slot right
/// after the current one in cyclic order.
pub proof fn lemma_all_runnable_select(m: ManagerModel, p: usize)
    requires
        m.wf(),
        m.current == CurrentProcess::Process(p),
        forall|j: int| 0 <= j < MAX_PROCESSES ==> m.runnable(j),
    ensures
        m.select_next() == CurrentProcess::Process(succ_slot(p as int) as usize),
{
    lemma_select_round_robin(m);
    let q = succ_slot(p as int);
    assert(m.runnable(q));
    assert(m.scan_offset(q) == 0);
    match m.select_next() {
        CurrentProcess::Idle => {
            assert(m.runnable(0));
        }
        CurrentProcess::Process(n) => {
            assert(m.scan_offset(n as int) <= m.scan_offset(q));
            lemma_scan_offset_inverse(m, n as int);
            lemma_scan_offset_inverse(m, q);
        }
    }
}

/// Round-robin fairness, full rotation: with every slot runnable,
/// three successive `schedule` calls starting from slot `p` visit the two
/// other slots in increasing cyclic order and only then return to `p`.
pub proof fn lemma_round_robin_rotation(m: ManagerModel, h: HartModel, h1: HartModel, p: usize)
    requires
        m.wf(),
        h.wf(),
        h1.wf(),
        m.current == CurrentProcess::Process(p),
        forall|j: int| 0 <= j < MAX_PROCESSES ==> m.runnable(j),
    ensures
        m.select_next() == CurrentProcess::Process(succ_slot(p as int) as usize),
        m.after_schedule_mgr(h).select_next()
            == CurrentProcess::Process(succ_slot(succ_slot(p as int)) as usize),
        m.after_schedule_mgr(h).after_schedule_mgr(h1).select_next()
            == CurrentProcess::Process(p),
{
    lemma_all_runnable_select(m, p);
    lemma_schedule_preserves(m, h);
    let m1 = m.after_schedule_mgr(h);
    let q = succ_slot(p as int) as usize;
    assert forall|j: int| 0 <= j < MAX_PROCESSES implies m1.runnable(j) by {
        assert(m1.table[j].state == m.table[j].state);
        assert(m.runnable(j));
    }
    lemma_all_runnable_select(m1, q);
    lemma_schedule_preserves(m1, h1);
    let m2 = m1.after_schedule_mgr(h1);
    let r = succ_slot(q as int) as usize;
    assert forall|j: int| 0 <= j < MAX_PROCESSES implies m2.runnable(j) by {
        assert(m2.table[j].state == m1.table[j].state);
        assert(m1.runnable(j));
    }
    lemma_all_runnable_select(m2, r);
    assert(succ_slot(r as int) == p as int);
}

/// Round-robin fairness for one runnable slot besides the current one:
/// the two strictly alternate — the scheduler selects the other, and from
/// there selects the first again, before ever revisiting either.
pub proof fn lemma_two_runnable_alternate(m: ManagerModel, h: HartModel, p: usize, q: usize)
    requires
        m.wf(),
        h.wf(),
        m.current == CurrentProcess::Process(p),
        m.runnable(q as int),
        p != q,
        forall|j: int| m.runnable(j) ==> j == p || j == q,
    ensures
        m.select_next() == CurrentProcess::Process(q),
        m.after_schedule_mgr(h).select_next() == CurrentProcess::Process(p),
{
    lemma_select_round_robin(m);
    assert(m.runnable(p as int));
    match m.select_next() {
        CurrentProcess::Idle => {}
        CurrentProcess::Process(n) => {
            lemma_scan_offset_inverse(m, n as int);
            lemma_scan_offset_inverse(m, p as int);
            lemma_scan_offset_inverse(m, q as int);
            assert(m.scan_offset(p as int) == (MAX_PROCESSES - 1) as int);
            assert(m.scan_offset(n as int) <= m.scan_offset(q as int));
        }
    }
    lemma_schedule_preserves(m, h);
    let m1 = m.after_schedule_mgr(h);
    assert(m1.runnable(p as int));
    lemma_select_round_robin(m1);
    match m1.select_next() {
        CurrentProcess::Idle => {}
        CurrentProcess::Process(n) => {
            assert(m.runnable(n as int));
            lemma_scan_offset_inverse(m1, n as int);
            lemma_scan_offset_inverse(m1, p as int);
            lemma_scan_offset_inverse(m1, q as int);
            assert(m1.scan_offset(q as int) == (MAX_PROCESSES - 1) as int);
            assert(m1.scan_offset(n as int) <= m1.scan_offset(p as int));
        }
    }
}

/// With only the current slot runnable, the scheduler selects it again:
/// the self-transition is legal and changes nothing.
pub proof fn lemma_single_runnable_self(m: ManagerModel, h: HartModel, p: usize)
    requires
        m.wf(),
        m.current == CurrentProcess::Process(p),
        forall|j: int| m.runnable(j) ==> j == p,
    ensures
        m.select_next() == CurrentProcess::Process(p),
        m.after_schedule_mgr(h) == m,
        m.after_schedule_hart(h) == (HartModel { sscratch: CurrentProcess::Process(p), ..h }),
{
    lemma_select_round_robin(m);
    assert(m.runnable(p as int));
    match m.select_next() {
        CurrentProcess::Idle => {}
        CurrentProcess::Process(n) => {
            assert(m.runnable(n as int));
        }
    }
}

/// Switch round trip at the scheduler level: after control leaves identity
/// `a = m.current` for another, `a`'s record holds the hart state it
/// yielded with; when a later, possibly much later, `schedule` — from any
/// manager state `m2` in which `a`'s record is untouched — selects `a`
/// again, the hart resumes with exactly the frame and stack cursor `a`
/// left off with.
pub proof fn lemma_schedule_round_trip(
    m: ManagerModel,
    h: HartModel,
    m2: ManagerModel,
    h2: HartModel,
)
    requires
        m.wf(),
        h.wf(),
        m.select_next() != m.current,
        m2.slot(m.current) == m.after_schedule_mgr(h).slot(m.current),
        m2.select_next() == m.current,
        m2.current != m.current,
    ensures
        m2.after_schedule_hart(h2).frame == h.frame,
        m2.after_schedule_hart(h2).sp == h.sp,
{
    let a = m.current;
    let saved = m.slot(a).after_save(h);
    assert(m.after_schedule_mgr(h).slot(a) == saved);
    lemma_switch_round_trip(m.slot(a), h, h2);
}

} // verus!

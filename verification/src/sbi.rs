//! The supervisor binary interface boundary: the one service the core asks
//! of the firmware layer below it is diagnostic character output.
//!
//! On hardware the request is an `ecall` with the argument registers laid
//! out by the calling convention; what the firmware does with it is outside
//! this core. The model keeps the observable effect of that collaborator —
//! the sequence of bytes handed to the console — as an explicit value, so
//! that everything the core decides around the call is verified.

use vstd::prelude::*;

verus! {

/// The extension id of the legacy console-putchar service.
pub const CONSOLE_PUTCHAR_EID: i32 = 1;

/// The function id the core passes alongside it.
pub const CONSOLE_PUTCHAR_FID: i32 = 0;

/// The error code the firmware answers for a service it does not offer.
pub const SBI_ERR_NOT_SUPPORTED: i32 = -2;

/// The two-register answer of a supervisor service call.
#[derive(Clone, Copy, Debug, PartialEq, Eq, Structural)]
pub struct Sbiret {
    pub error: i32,
    pub value: i32,
}

/// The firmware console as the core observes it: the bytes output so far.
/// Its view is that byte sequence.
#[derive(Debug)]
pub struct SbiConsole {
    log: Vec<u8>,
}

impl View for SbiConsole {
    type V = Seq<u8>;

    closed spec fn view(&self) -> Seq<u8> {
        self.log@
    }
}

impl SbiConsole {
    /// A console that has output nothing yet.
    pub fn new() -> (con: SbiConsole)
        ensures
            con@ == Seq::<u8>::empty(),
    {
        SbiConsole { log: Vec::new() }
    }

    /// The bytes output so far, oldest first.
    pub fn output(&self) -> (log: &Vec<u8>)
        ensures
            log@ == self@,
    {
        &self.log
    }
}

/// A supervisor service call. The selector pair `(fid, eid)` names the
/// service; the only one this core ever requests is console output, which
/// takes the byte in `a0` and whose result is never consulted. Any other
/// selector is answered as not supported, with the console untouched.
pub fn sbi_call(
    con: &mut SbiConsole,
    a0: i32,
    a1: i32,
    a2: i32,
    a3: i32,
    a4: i32,
    a5: i32,
    fid: i32,
    eid: i32,
) -> (ret: Sbiret)
    ensures
        eid == CONSOLE_PUTCHAR_EID && fid == CONSOLE_PUTCHAR_FID ==> {
            &&& final(con)@ == old(con)@.push(a0 as u8)
            &&& ret == (Sbiret { error: 0, value: 0 })
        },
        !(eid == CONSOLE_PUTCHAR_EID && fid == CONSOLE_PUTCHAR_FID) ==> {
            &&& final(con)@ == old(con)@
            &&& ret == (Sbiret { error: SBI_ERR_NOT_SUPPORTED, value: 0 })
        },
{
    if eid == CONSOLE_PUTCHAR_EID && fid == CONSOLE_PUTCHAR_FID {
        con.log.push(a0 as u8);
        Sbiret { error: 0, value: 0 }
    } else {
        Sbiret { error: SBI_ERR_NOT_SUPPORTED, value: 0 }
    }
}

/// Fire-and-forget diagnostic output of one byte: a service call with the
/// console-output selectors, its result dropped.
pub fn putchar(con: &mut SbiConsole, c: u8)
    ensures
        final(con)@ == old(con)@.push(c),
{
    sbi_call(con, c as i32, 0, 0, 0, 0, 0, CONSOLE_PUTCHAR_FID, CONSOLE_PUTCHAR_EID);
}

} // verus!

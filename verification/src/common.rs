//! Small string helpers shared by the kernel and its diagnostics, and the
//! diagnostic print primitive built on the console collaborator.

use vstd::prelude::*;

use crate::sbi::SbiConsole;
use crate::sbi::putchar;
use vstd::pervasive::VecAdditionalExecFns;
use vstd::string::StrSliceExecFns;
use vstd::string::StringSliceAdditionalSpecFns;

verus! {

/// Number of characters in `s` (unicode characters, not bytes).
pub fn strlen(s: &str) -> (len: usize)
    ensures
        len == s@.len(),
{
    s.unicode_len()
}

/// Copies the bytes of `src` into the front of `dst`, leaving the rest of
/// `dst` untouched. The destination must be large enough to hold them.
pub fn strcpy(dst: &mut Vec<u8>, src: &str)
    requires
        src.spec_bytes().len() <= old(dst).len(),
    ensures
        final(dst).len() == old(dst).len(),
        final(dst)@.subrange(0, src.spec_bytes().len() as int) == src.spec_bytes(),
        final(dst)@.subrange(src.spec_bytes().len() as int, old(dst).len() as int)
            == old(dst)@.subrange(src.spec_bytes().len() as int, old(dst).len() as int),
{
    let bytes = s_bytes(src);
    let n = bytes.len();
    let mut i: usize = 0;
    while i < n
        invariant
            i <= n,
            n == src.spec_bytes().len(),
            bytes@ == src.spec_bytes(),
            n <= dst.len(),
            dst.len() == old(dst).len(),
            forall|j: int| 0 <= j < i ==> dst@[j] == src.spec_bytes()[j],
            forall|j: int| i <= j < dst.len() ==> dst@[j] == old(dst)@[j],
        decreases n - i,
    {
        let b = bytes[i];
        dst.set(i, b);
        i += 1;
    }
    proof {
        assert(dst@.subrange(0, src.spec_bytes().len() as int) =~= src.spec_bytes());
        assert(dst@.subrange(src.spec_bytes().len() as int, old(dst).len() as int)
            =~= old(dst)@.subrange(src.spec_bytes().len() as int, old(dst).len() as int));
    }
}

/// The bytes of `s` as an owned vector.
fn s_bytes(s: &str) -> (bytes: Vec<u8>)
    ensures
        bytes@ == s.spec_bytes(),
{
    s.as_bytes_vec()
}

/// Writes the bytes of `s` to the diagnostic console, one `putchar` per
/// byte, as a console `core::fmt` adapter would.
pub fn _print(con: &mut SbiConsole, s: &str)
    ensures
        final(con)@ == old(con)@ + s.spec_bytes(),
{
    let bytes = s_bytes(s);
    let n = bytes.len();
    let mut i: usize = 0;
    while i < n
        invariant
            i <= n,
            bytes@ == s.spec_bytes(),
            n == s.spec_bytes().len(),
            con@ == old(con)@ + s.spec_bytes().subrange(0, i as int),
        decreases n - i,
    {
        let b = bytes[i];
        putchar(con, b);
        proof {
            assert(old(con)@ + s.spec_bytes().subrange(0, i as int) + seq![s.spec_bytes()[i as int]]
                =~= old(con)@ + s.spec_bytes().subrange(0, i + 1));
        }
        i += 1;
    }
    proof {
        assert(con@ =~= old(con)@ + s.spec_bytes());
    }
}

} // verus!

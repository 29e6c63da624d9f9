//! The physical page allocator: a monotonic bump allocator over a fixed
//! arena of bytes. Pages are handed out in address order, zero-filled, and
//! never freed or reused.
//!
//! On hardware the arena is the free-RAM region between two linker symbols;
//! the model owns those bytes directly, with the arena's base address kept
//! alongside them, so allocation arithmetic and the zero-fill are verified.

use vstd::prelude::*;

use crate::KernelError;
use vstd::arithmetic::div_mod::lemma_div_is_ordered;
use vstd::arithmetic::div_mod::lemma_div_multiples_vanish;
use vstd::arithmetic::div_mod::lemma_fundamental_div_mod;
use vstd::arithmetic::div_mod::lemma_mod_division_less_than_divisor;
use vstd::pervasive::VecAdditionalExecFns;

verus! {

/// Bytes in one physical page.
pub const PAGE_SIZE: usize = 4096;

/// A physical address.
pub type Paddr = usize;

/// The mathematical state of the allocator: the arena `[base, base +
/// arena.len())`, its bytes, and the cursor `next` of the first byte not
/// yet handed out.
#[verifier::ext_equal]
pub ghost struct AllocatorModel {
    pub base: int,
    pub next: int,
    pub arena: Seq<u8>,
}

/// `bytes` with the index range `[lo, hi)` replaced by zeroes.
pub open spec fn zero_range(bytes: Seq<u8>, lo: int, hi: int) -> Seq<u8> {
    Seq::new(bytes.len(), |i: int| if lo <= i < hi { 0u8 } else { bytes[i] })
}

impl AllocatorModel {
    /// One past the last arena address.
    pub open spec fn end(self) -> int {
        self.base + self.arena.len()
    }

    /// The cursor always lies inside `[base, end]`, and every arena
    /// address fits the machine word.
    pub open spec fn wf(self) -> bool {
        0 <= self.base <= self.next <= self.end() <= usize::MAX
    }

    /// Whether `pages` contiguous pages still fit before the arena end.
    pub open spec fn can_alloc(self, pages: u32) -> bool {
        self.next + pages * (PAGE_SIZE as int) <= self.end()
    }

    /// The state after a successful allocation of `pages` pages: the
    /// granted range is zero-filled and the cursor committed past it.
    pub open spec fn after_alloc(self, pages: u32) -> AllocatorModel {
        AllocatorModel {
            base: self.base,
            next: self.next + pages * (PAGE_SIZE as int),
            arena: zero_range(
                self.arena,
                self.next - self.base,
                self.next - self.base + pages * (PAGE_SIZE as int),
            ),
        }
    }
}

/// The bump allocator. Its view is an [`AllocatorModel`].
pub struct PhysicalAllocator {
    base: usize,
    next: usize,
    arena: Vec<u8>,
}

impl View for PhysicalAllocator {
    type V = AllocatorModel;

    closed spec fn view(&self) -> AllocatorModel {
        AllocatorModel { base: self.base as int, next: self.next as int, arena: self.arena@ }
    }
}

impl PhysicalAllocator {
    /// An allocator over the arena `[base, base + arena.len())` holding
    /// the given bytes, with nothing allocated yet. The platform's boot
    /// collaborator decides the range; the bytes may be dirty, since every
    /// granted page is zero-filled at allocation time.
    pub fn new(base: usize, arena: Vec<u8>) -> (a: PhysicalAllocator)
        requires
            base + arena@.len() <= usize::MAX,
        ensures
            a@ == (AllocatorModel { base: base as int, next: base as int, arena: arena@ }),
            a@.wf(),
    {
        PhysicalAllocator { base, next: base, arena }
    }

    /// The base of `pages` contiguous, zero-filled pages, or
    /// `ResourceExhausted` if the advance would cross the arena's end — if
    /// and only if it would. A request that exactly fills the remaining
    /// arena succeeds. On failure nothing changes; there is no free and no
    /// reuse.
    pub fn alloc_pages(&mut self, pages: u32) -> (r: Result<Paddr, KernelError>)
        requires
            old(self)@.wf(),
        ensures
            final(self)@.wf(),
            r is Ok <==> old(self)@.can_alloc(pages),
            r is Ok ==> r->Ok_0 == old(self)@.next && final(self)@ == old(self)@.after_alloc(pages),
            r is Err ==> r == Err::<Paddr, KernelError>(KernelError::ResourceExhausted)
                && final(self)@ == old(self)@,
    {
        let end = self.base + self.arena.len();
        let remaining = end - self.next;
        let fitting = remaining / PAGE_SIZE;
        if (pages as usize) > fitting {
            proof {
                // more pages than fit: pages * PAGE_SIZE overshoots the rest
                lemma_fundamental_div_mod(remaining as int, PAGE_SIZE as int);
                lemma_mod_division_less_than_divisor(remaining as int, PAGE_SIZE as int);
                if old(self)@.can_alloc(pages) {
                    lemma_div_is_ordered(
                        (pages as int) * (PAGE_SIZE as int),
                        remaining as int,
                        PAGE_SIZE as int,
                    );
                    lemma_div_multiples_vanish(pages as int, PAGE_SIZE as int);
                    assert((pages as int) * (PAGE_SIZE as int) / (PAGE_SIZE as int)
                        == (PAGE_SIZE as int) * (pages as int) / (PAGE_SIZE as int));
                }
            }
            return Err(KernelError::ResourceExhausted);
        }
        proof {
            lemma_fundamental_div_mod(remaining as int, PAGE_SIZE as int);
            lemma_mod_division_less_than_divisor(remaining as int, PAGE_SIZE as int);
            assert((pages as int) * (PAGE_SIZE as int) <= (fitting as int) * (PAGE_SIZE as int))
                by (nonlinear_arith)
                requires
                    0 <= pages as int <= fitting as int,
            ;
        }
        let len = (pages as usize) * PAGE_SIZE;
        let addr = self.next;
        let off = self.next - self.base;
        let mut i: usize = 0;
        while i < len
            invariant
                i <= len,
                off + len <= self.arena.len(),
                self.base == old(self).base,
                self.next == old(self).next,
                self.arena.len() == old(self).arena.len(),
                off == self.next - self.base,
                forall|j: int| off <= j < off + i ==> self.arena@[j] == 0,
                forall|j: int|
                    0 <= j < self.arena.len() && !(off <= j < off + i)
                        ==> self.arena@[j] == old(self).arena@[j],
            decreases len - i,
        {
            self.arena.set(off + i, 0);
            i += 1;
        }
        self.next = self.next + len;
        proof {
            assert(self@.arena =~= old(self)@.after_alloc(pages).arena);
            assert(self@ =~= old(self)@.after_alloc(pages));
        }
        Ok(addr)
    }

    /// The byte at arena address `addr`, for inspecting granted memory.
    pub fn read_byte(&self, addr: Paddr) -> (b: u8)
        requires
            self@.wf(),
            self@.base <= addr < self@.end(),
        ensures
            b == self@.arena[addr - self@.base],
    {
        self.arena[addr - self.base]
    }
}

/// Allocator monotonicity and zeroing: when two one-page allocations both
/// succeed, the second is granted exactly one page size past the first,
/// and the page the first granted reads as all zero afterwards, whatever
/// the arena held before.
pub proof fn lemma_alloc_monotonic_zeroing(m: AllocatorModel)
    requires
        m.wf(),
        m.can_alloc(1),
        m.after_alloc(1).can_alloc(1),
    ensures
        m.after_alloc(1).next == m.next + PAGE_SIZE,
        forall|j: int|
            m.next <= j < m.next + PAGE_SIZE ==> #[trigger] m.after_alloc(1).arena[j - m.base]
                == 0,
{
}

} // verus!

use kernel_core::KernelError;
use kernel_core::memory::PAGE_SIZE;
use kernel_core::memory::PhysicalAllocator;

const BASE: usize = 0x8020_0000;

fn dirty_arena(pages: usize) -> Vec<u8> {
    vec![0xab; pages * PAGE_SIZE]
}

#[test]
fn alloc_addresses_are_one_page_apart() {
    let mut alloc = PhysicalAllocator::new(BASE, dirty_arena(4));
    let a1 = alloc.alloc_pages(1).unwrap();
    let a2 = alloc.alloc_pages(1).unwrap();
    assert_eq!(a1, BASE);
    assert_eq!(a2, a1 + PAGE_SIZE);
}

#[test]
fn granted_page_reads_all_zero_even_if_previously_dirty() {
    let mut alloc = PhysicalAllocator::new(BASE, dirty_arena(2));
    let a1 = alloc.alloc_pages(1).unwrap();
    for off in [0, 1, PAGE_SIZE / 2, PAGE_SIZE - 1] {
        assert_eq!(alloc.read_byte(a1 + off), 0);
    }
    // memory past the grant is still untouched
    assert_eq!(alloc.read_byte(a1 + PAGE_SIZE), 0xab);
}

#[test]
fn crossing_the_arena_end_is_resource_exhausted() {
    let mut alloc = PhysicalAllocator::new(BASE, dirty_arena(2));
    assert_eq!(alloc.alloc_pages(3), Err(KernelError::ResourceExhausted));
    // the failed request changed nothing: the whole arena is still free
    let a = alloc.alloc_pages(2).unwrap();
    assert_eq!(a, BASE);
}

#[test]
fn exactly_filling_the_remaining_arena_succeeds() {
    let mut alloc = PhysicalAllocator::new(BASE, dirty_arena(3));
    let a1 = alloc.alloc_pages(1).unwrap();
    assert_eq!(a1, BASE);
    let a2 = alloc.alloc_pages(2).unwrap();
    assert_eq!(a2, BASE + PAGE_SIZE);
    assert_eq!(alloc.alloc_pages(1), Err(KernelError::ResourceExhausted));
}

#[test]
fn empty_request_advances_nothing() {
    let mut alloc = PhysicalAllocator::new(BASE, dirty_arena(1));
    let a1 = alloc.alloc_pages(0).unwrap();
    let a2 = alloc.alloc_pages(0).unwrap();
    assert_eq!(a1, BASE);
    assert_eq!(a2, BASE);
}

use kernel_vm::Allocator;
use kernel_vm::BumpFrameAllocator;
use kernel_vm::FreeListAllocator;
use kernel_vm::PhysicalAddress;
use kernel_vm::Ppn;

#[test]
fn arena_exact_fill_succeeds_and_next_byte_fails() {
    let mut arena = Allocator::new(0, 100);
    let a = arena.allocate(40, 1).unwrap();
    assert_eq!(a.start, 0);
    assert_eq!(a.size, 40);
    let b = arena.allocate(60, 1).unwrap();
    assert_eq!(b.start, 40);
    assert_eq!(b.size, 60);
    assert!(arena.allocate(1, 1).is_err());
}

#[test]
fn arena_reclaims_everything_when_last_allocation_leaves() {
    let mut arena = Allocator::new(0, 100);
    let a = arena.allocate(40, 1).unwrap();
    let b = arena.allocate(60, 1).unwrap();
    arena.deallocate(a);
    // one allocation still live: nothing is reclaimed yet
    assert!(arena.allocate(1, 1).is_err());
    arena.deallocate(b);
    // the arena is empty again: a full-buffer request succeeds from offset 0
    let c = arena.allocate(100, 1).unwrap();
    assert_eq!(c.start, 0);
    assert_eq!(c.size, 100);
}

#[test]
fn arena_zero_size_request_consumes_nothing() {
    let mut arena = Allocator::new(0, 16);
    let z = arena.allocate(0, 8).unwrap();
    assert_eq!(z.size, 0);
    let a = arena.allocate(16, 1).unwrap();
    assert_eq!(a.start, 0);
}

#[test]
fn arena_pads_up_to_alignment() {
    let mut arena = Allocator::new(3, 100);
    let a = arena.allocate(4, 4).unwrap();
    assert_eq!(a.start, 4);
    assert_eq!(a.start % 4, 0);
    // one byte of padding plus four of payload were consumed
    let b = arena.allocate(1, 1).unwrap();
    assert_eq!(b.start, 8);
}

#[test]
fn arena_padding_counts_against_capacity() {
    let mut arena = Allocator::new(5, 8);
    // six bytes would fit, but three of padding push the request over
    assert!(arena.allocate(6, 8).is_err());
    let a = arena.allocate(5, 8).unwrap();
    assert_eq!(a.start, 8);
}

#[test]
fn bump_frames_exhaust_after_n_pages() {
    let mut frames = BumpFrameAllocator::new(
        PhysicalAddress::new(0x1000),
        PhysicalAddress::new(0x4000),
    );
    assert_eq!(frames.alloc_page().unwrap().get(), 0x1000);
    assert_eq!(frames.alloc_page().unwrap().get(), 0x2000);
    assert_eq!(frames.alloc_page().unwrap().get(), 0x3000);
    assert!(frames.alloc_page().is_none());
}

#[test]
fn bump_frames_never_reclaim() {
    let mut frames = BumpFrameAllocator::new(
        PhysicalAddress::new(0x1000),
        PhysicalAddress::new(0x2000),
    );
    let f = frames.alloc_page().unwrap();
    frames.dealloc_page(f);
    assert!(frames.alloc_page().is_none());
}

#[test]
fn free_list_exhausts_after_n_pages() {
    let mut frames = FreeListAllocator::new(
        PhysicalAddress::new(0x1000),
        PhysicalAddress::new(0x4000),
    );
    assert_eq!(frames.alloc_page().unwrap().get(), 1);
    assert_eq!(frames.alloc_page().unwrap().get(), 2);
    assert_eq!(frames.alloc_page().unwrap().get(), 3);
    assert!(frames.alloc_page().is_none());
}

#[test]
fn free_list_reuses_most_recently_freed_frame_first() {
    let mut frames = FreeListAllocator::new(
        PhysicalAddress::new(0x1000),
        PhysicalAddress::new(0x4000),
    );
    let a = frames.alloc_page().unwrap();
    let b = frames.alloc_page().unwrap();
    let c = frames.alloc_page().unwrap();
    assert!(frames.alloc_page().is_none());
    frames.dealloc_page(b);
    frames.dealloc_page(a);
    // stack order: the frame freed last comes back first
    assert_eq!(frames.alloc_page().unwrap().get(), a.get());
    assert_eq!(frames.alloc_page().unwrap().get(), b.get());
    assert!(frames.alloc_page().is_none());
    frames.dealloc_page(c);
    assert_eq!(frames.alloc_page().unwrap().get(), c.get());
}

#[test]
fn free_list_over_empty_range_is_exhausted() {
    let mut frames = FreeListAllocator::new(
        PhysicalAddress::new(0x5000),
        PhysicalAddress::new(0x5000),
    );
    assert!(frames.alloc_page().is_none());
}

#[test]
fn free_list_frames_are_numbered_in_range() {
    let mut frames = FreeListAllocator::new(
        PhysicalAddress::new(0x8000),
        PhysicalAddress::new(0xa000),
    );
    let a: Ppn = frames.alloc_page().unwrap();
    assert_eq!(a.get(), 8);
    assert_eq!(a.into_addr(), 0x8000);
}

use kernel_vm::FrameSource;
use kernel_vm::FreeListAllocator;
use kernel_vm::Page;
use kernel_vm::PageEntryFlag;
use kernel_vm::PageTableTree;
use kernel_vm::PhysicalAddress;
use kernel_vm::VirtualAddress;

fn pool(start: usize, end: usize) -> FreeListAllocator {
    FreeListAllocator::new(PhysicalAddress::new(start), PhysicalAddress::new(end))
}

#[test]
fn map_then_lookup_yields_leaf_with_frame_and_permissions() {
    let mut frames = pool(0x10_0000, 0x14_0000);
    let mut tree = PageTableTree::new(&mut frames).unwrap();

    let v = Page::new(VirtualAddress::new((1 << 30) | (2 << 21) | (3 << 12))).unwrap();
    let p = Page::new(PhysicalAddress::new(0xabc000)).unwrap();
    tree.map(&mut frames, v, p, PageEntryFlag::read().or(PageEntryFlag::write())).unwrap();

    let leaf = tree.lookup(v).unwrap();
    assert!(leaf.is_valid());
    assert!(leaf.is_leaf());
    assert!(leaf.is_read());
    assert!(leaf.is_write());
    assert!(!leaf.is_exec());
    assert_eq!(leaf.ppn().get(), 0xabc);
}

#[test]
fn lookup_misses_unmapped_addresses() {
    let mut frames = pool(0x10_0000, 0x14_0000);
    let mut tree = PageTableTree::new(&mut frames).unwrap();

    let v = Page::new(VirtualAddress::new(0x4000)).unwrap();
    assert!(tree.lookup(v).is_none());

    let p = Page::new(PhysicalAddress::new(0x5000)).unwrap();
    tree.map(&mut frames, v, p, PageEntryFlag::read()).unwrap();

    // a neighbouring page in the same table is still unmapped
    let other = Page::new(VirtualAddress::new(0x5000)).unwrap();
    assert!(tree.lookup(other).is_none());
    assert!(tree.lookup(v).is_some());
}

#[test]
fn remapping_a_page_silently_overwrites_the_leaf() {
    let mut frames = pool(0x10_0000, 0x14_0000);
    let mut tree = PageTableTree::new(&mut frames).unwrap();

    let v = Page::new(VirtualAddress::new(0x7000)).unwrap();
    let first = Page::new(PhysicalAddress::new(0x111000)).unwrap();
    let second = Page::new(PhysicalAddress::new(0x222000)).unwrap();

    tree.map(&mut frames, v, first, PageEntryFlag::read()).unwrap();
    tree.map(&mut frames, v, second, PageEntryFlag::read().or(PageEntryFlag::execute())).unwrap();

    // the second call's target and permissions win
    let leaf = tree.lookup(v).unwrap();
    assert_eq!(leaf.ppn().get(), 0x222);
    assert!(leaf.is_read());
    assert!(leaf.is_exec());
    assert!(!leaf.is_write());
    // no further tables were needed for the overwrite
    assert_eq!(tree.table_count(), 3);
}

#[test]
fn map_shares_tables_along_a_common_prefix() {
    let mut frames = pool(0x10_0000, 0x14_0000);
    let mut tree = PageTableTree::new(&mut frames).unwrap();
    assert_eq!(tree.table_count(), 1);

    let flags = PageEntryFlag::read();
    let p = Page::new(PhysicalAddress::new(0x9000)).unwrap();

    let v1 = Page::new(VirtualAddress::new(0x1000)).unwrap();
    tree.map(&mut frames, v1, p, flags).unwrap();
    assert_eq!(tree.table_count(), 3);

    // same level-2 and level-1 indices: no new table
    let v2 = Page::new(VirtualAddress::new(0x2000)).unwrap();
    tree.map(&mut frames, v2, p, flags).unwrap();
    assert_eq!(tree.table_count(), 3);

    // a different top-level index grows a fresh branch and leaf table
    let v3 = Page::new(VirtualAddress::new(1 << 30)).unwrap();
    tree.map(&mut frames, v3, p, flags).unwrap();
    assert_eq!(tree.table_count(), 5);
}

#[test]
fn map_fails_when_the_provider_is_exhausted() {
    // one frame: enough for the root alone
    let mut frames = pool(0x10_0000, 0x10_1000);
    let mut tree = PageTableTree::new(&mut frames).unwrap();

    let v = Page::new(VirtualAddress::new(0x3000)).unwrap();
    let p = Page::new(PhysicalAddress::new(0x3000)).unwrap();
    assert!(tree.map(&mut frames, v, p, PageEntryFlag::read()).is_err());
    assert!(tree.lookup(v).is_none());
}

#[test]
fn failed_map_keeps_partial_branches_without_a_leaf() {
    let mut frames = pool(0x10_0000, 0x10_3000);
    // hold one frame back, leaving the root and one branch table's worth
    let spare = frames.alloc_page().unwrap();
    let mut tree = PageTableTree::new(&mut frames).unwrap();

    let v = Page::new(VirtualAddress::new(0x3000)).unwrap();
    let p = Page::new(PhysicalAddress::new(0x3000)).unwrap();
    assert!(tree.map(&mut frames, v, p, PageEntryFlag::read()).is_err());
    // the intermediate branch table stays allocated, but no leaf exists
    assert_eq!(tree.table_count(), 2);
    assert!(tree.lookup(v).is_none());

    // handing the provider one more frame lets the same call finish
    frames.dealloc_page(spare);
    tree.map(&mut frames, v, p, PageEntryFlag::read()).unwrap();
    assert!(tree.lookup(v).is_some());
    assert_eq!(tree.table_count(), 3);
}

#[test]
fn arena_can_back_the_page_tables() {
    // the bump arena substitutes for the frame pool behind the engine
    let mut arena = kernel_vm::Allocator::new(0x10_0000, 5 * 0x1000);
    let mut tree = PageTableTree::new(&mut arena).unwrap();
    assert_eq!(tree.root_ppn().get(), 0x100);

    let v = Page::new(VirtualAddress::new(0x6000)).unwrap();
    let p = Page::new(PhysicalAddress::new(0x9000)).unwrap();
    tree.map(&mut arena, v, p, PageEntryFlag::read()).unwrap();

    let leaf = tree.lookup(v).unwrap();
    assert_eq!(leaf.ppn().get(), 9);
    assert!(leaf.is_read());

    // three of five pages are gone; a page-sized plain request still fits
    assert!(arena.allocate(2 * 0x1000, 1).is_ok());
    assert!(arena.allocate(1, 1).is_err());
}

#[test]
fn arena_frames_skip_to_the_next_page_boundary() {
    // a region starting off a page boundary: its first whole page is used
    let mut arena = kernel_vm::Allocator::new(0x10_0800, 0x2800);
    let f = arena.alloc_frame().unwrap();
    assert_eq!(f.get(), 0x101);
    let g = arena.alloc_frame().unwrap();
    assert_eq!(g.get(), 0x102);
    assert!(arena.alloc_frame().is_none());
}

#[test]
fn tree_creation_fails_without_frames() {
    let mut frames = pool(0x10_0000, 0x10_0000);
    assert!(PageTableTree::new(&mut frames).is_err());
}

#[test]
fn root_frame_comes_from_the_provider() {
    let mut frames = pool(0x10_0000, 0x10_1000);
    let tree = PageTableTree::new(&mut frames).unwrap();
    assert_eq!(tree.root_ppn().get(), 0x100);
}

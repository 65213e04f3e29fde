use kernel_vm::FreeListAllocator;
use kernel_vm::KernelImage;
use kernel_vm::Page;
use kernel_vm::PageEntryFlag;
use kernel_vm::PageTableTree;
use kernel_vm::PhysicalAddress;
use kernel_vm::VirtualAddress;
use kernel_vm::identity_map_range;
use kernel_vm::map_kernel_memory;
use kernel_vm::satp_value;

fn pool(start: usize, end: usize) -> FreeListAllocator {
    FreeListAllocator::new(PhysicalAddress::new(start), PhysicalAddress::new(end))
}

fn lookup(tree: &PageTableTree, addr: usize) -> kernel_vm::Entry {
    tree.lookup(Page::new(VirtualAddress::new(addr)).unwrap()).unwrap()
}

#[test]
fn synthetic_kernel_image_end_to_end() {
    // a synthetic image: one code page, one data page, and a three-page
    // free-list-backed heap; the root table comes from its own frame
    let mut root_pool = pool(0x10_0000, 0x10_1000);
    let mut tree = PageTableTree::new(&mut root_pool).unwrap();
    let mut heap = pool(0x3000, 0x6000);

    let image = KernelImage {
        text_start: 0x1000,
        text_end: 0x2000,
        rodata_start: 0x2000,
        rodata_end: 0x2000,
        data_start: 0x2000,
        data_end: 0x3000,
        bss_start: 0x3000,
        heap_end: 0x6000,
    };
    map_kernel_memory(&mut tree, &mut heap, image).unwrap();

    // the code page is readable and executable, identity-mapped
    let code = lookup(&tree, 0x1000);
    assert!(code.is_read());
    assert!(code.is_exec());
    assert!(!code.is_write());
    assert_eq!(code.ppn().get(), 1);

    // the data page is readable and writable, identity-mapped
    let data = lookup(&tree, 0x2000);
    assert!(data.is_read());
    assert!(data.is_write());
    assert!(!data.is_exec());
    assert_eq!(data.ppn().get(), 2);

    // the heap pages themselves are mapped read+write
    let heap_page = lookup(&tree, 0x3000);
    assert!(heap_page.is_read());
    assert!(heap_page.is_write());

    // all five pages share one top-level index, so the walk grew one
    // intermediate branch table and one leaf-level table
    assert_eq!(tree.table_count(), 3);

    // those two tables came from the heap pool: of its three frames one
    // is still free
    assert!(heap.alloc_page().is_some());
    assert!(heap.alloc_page().is_none());

    // the control-register value combines the mode tag and root frame
    assert_eq!(satp_value(tree.root_ppn()), (8u64 << 60) | 0x100);
}

#[test]
fn identity_map_range_maps_every_page_in_order() {
    let mut frames = pool(0x20_0000, 0x24_0000);
    let mut tree = PageTableTree::new(&mut frames).unwrap();

    identity_map_range(&mut tree, &mut frames, 0x8000, 0xb000, PageEntryFlag::read()).unwrap();

    for addr in [0x8000usize, 0x9000, 0xa000] {
        let leaf = lookup(&tree, addr);
        assert!(leaf.is_read());
        assert!(!leaf.is_write());
        assert_eq!(leaf.ppn().get(), addr >> 12);
    }
    assert!(tree.lookup(Page::new(VirtualAddress::new(0xb000)).unwrap()).is_none());
    assert!(tree.lookup(Page::new(VirtualAddress::new(0x7000)).unwrap()).is_none());
}

#[test]
fn identity_map_empty_range_maps_nothing() {
    let mut frames = pool(0x20_0000, 0x21_0000);
    let mut tree = PageTableTree::new(&mut frames).unwrap();
    identity_map_range(&mut tree, &mut frames, 0x8000, 0x8000, PageEntryFlag::read()).unwrap();
    assert_eq!(tree.table_count(), 1);
    assert!(tree.lookup(Page::new(VirtualAddress::new(0x8000)).unwrap()).is_none());
}

#[test]
fn mapping_fails_when_the_heap_cannot_back_the_tables() {
    // one frame backs the root; none are left for child tables
    let mut frames = pool(0x20_0000, 0x20_1000);
    let mut tree = PageTableTree::new(&mut frames).unwrap();

    let image = KernelImage {
        text_start: 0x1000,
        text_end: 0x2000,
        rodata_start: 0x2000,
        rodata_end: 0x2000,
        data_start: 0x2000,
        data_end: 0x2000,
        bss_start: 0x2000,
        heap_end: 0x2000,
    };
    assert!(map_kernel_memory(&mut tree, &mut frames, image).is_err());
    assert!(frames.alloc_page().is_none());
    assert!(tree.lookup(Page::new(VirtualAddress::new(0x1000)).unwrap()).is_none());
}

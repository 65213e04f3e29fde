use kernel_vm::Entry;
use kernel_vm::Page;
use kernel_vm::PageEntryFlag;
use kernel_vm::PhysicalAddress;
use kernel_vm::Ppn;
use kernel_vm::VirtualAddress;
use kernel_vm::satp_value;

#[test]
fn virtual_address_round_trip() {
    let v = VirtualAddress::new(0x1234_5678);
    assert_eq!(v.get(), 0x1234_5678);
}

#[test]
fn virtual_address_decomposition() {
    let raw = (1usize << 30) | (2 << 21) | (3 << 12) | 7;
    let v = VirtualAddress::new(raw);
    assert_eq!(v.vpn(), [3, 2, 1]);
    assert_eq!(v.offset(), 7);
}

#[test]
fn virtual_address_index_masks_are_nine_bits() {
    let v = VirtualAddress::new(usize::MAX);
    assert_eq!(v.vpn(), [0x1ff, 0x1ff, 0x1ff]);
    assert_eq!(v.offset(), 0xfff);
}

#[test]
fn physical_address_round_trip() {
    let p = PhysicalAddress::new(0xdead_b000);
    assert_eq!(p.get(), 0xdead_b000);
}

#[test]
fn physical_address_frame_number() {
    assert_eq!(PhysicalAddress::new(0x1234_5000).ppn().get(), 0x12345);
}

#[test]
fn physical_address_frame_number_wide() {
    // the 26-bit top field keeps physical bits above the virtual range
    let addr = (1usize << 55) | 0x2000;
    assert_eq!(PhysicalAddress::new(addr).ppn().get(), (1 << 43) | 2);
}

#[test]
fn ppn_round_trip_clears_offset_bits() {
    assert_eq!(Ppn::from_addr(0x12345).into_addr(), 0x12000);
    assert_eq!(Ppn::from_addr(0xfff).into_addr(), 0);
}

#[test]
fn ppn_round_trip_is_lossless_on_aligned_addresses() {
    assert_eq!(Ppn::from_addr(0x7000).into_addr(), 0x7000);
    assert_eq!(Ppn::from_addr(0).into_addr(), 0);
}

#[test]
fn ppn_new_get() {
    assert_eq!(Ppn::new(42).get(), 42);
}

#[test]
fn page_rejects_misaligned_addresses() {
    assert!(Page::new(VirtualAddress::new(4095)).is_none());
    assert!(Page::new(VirtualAddress::new(4097)).is_none());
    assert!(Page::new(PhysicalAddress::new(1)).is_none());
}

#[test]
fn page_accepts_aligned_addresses() {
    let p = Page::new(VirtualAddress::new(8192)).unwrap();
    assert_eq!(p.address().get(), 8192);
    assert!(Page::new(VirtualAddress::new(0)).is_some());
    assert!(Page::new(PhysicalAddress::new(0x3000)).is_some());
}

#[test]
fn leaf_entry_encodes_permissions_and_frame() {
    let e = Entry::new_leaf(Ppn::new(0xabc), PageEntryFlag::read().or(PageEntryFlag::write()));
    assert!(e.is_valid());
    assert!(e.is_leaf());
    assert!(e.is_read());
    assert!(e.is_write());
    assert!(!e.is_exec());
    assert_eq!(e.ppn().get(), 0xabc);
}

#[test]
fn branch_entry_has_no_permission_bits() {
    let e = Entry::new_branch(Ppn::new(5));
    assert!(e.is_valid());
    assert!(!e.is_leaf());
    assert!(!e.is_read());
    assert!(!e.is_write());
    assert!(!e.is_exec());
    assert_eq!(e.ppn().get(), 5);
}

#[test]
fn satp_value_combines_mode_and_root_frame() {
    assert_eq!(satp_value(Ppn::new(0x1234)), (8u64 << 60) | 0x1234);
}

//! Boot-time mapping orchestration: identity-map every section of the
//! kernel image with its permission policy, and form the control-register
//! value that switches the processor to the new address space.

use vstd::prelude::*;

use crate::kalloc::AllocError;
use crate::kalloc::FrameSource;
use crate::paging::PageTableTree;
use crate::vm::Page;
use crate::vm::PageEntryFlag;
use crate::vm::PhysicalAddress;
use crate::vm::Ppn;
use crate::vm::VirtualAddress;
use crate::vm::lemma_distinct_pages;
use crate::vm::page_aligned;
use crate::vm::spec_addr_ppn;
use crate::vm::spec_leaf;
use crate::PAGE_SIZE;

verus! {

/// The translation-mode tag written to the control register: three-level
/// translation with 39-bit virtual addresses.
pub const SATP_SV39: u64 = 8 << 60;

/// The control-register value activating translation through the table
/// rooted at `root`: the fixed mode tag combined with the root table's
/// frame number.
pub fn satp_value(root: Ppn) -> (r: u64)
    ensures
        r == SATP_SV39 | (root@ as u64),
{
    SATP_SV39 | root.get() as u64
}

/// The kernel image's section boundaries, as the link step declares
/// them: code, read-only data, initialized data, and the zero-initialized
/// region running up to the end of the boot heap.
#[derive(Clone, Copy, Debug)]
pub struct KernelImage {
    pub text_start: usize,
    pub text_end: usize,
    pub rodata_start: usize,
    pub rodata_end: usize,
    pub data_start: usize,
    pub data_end: usize,
    pub bss_start: usize,
    pub heap_end: usize,
}

impl KernelImage {
    /// The boundaries are sane: page-aligned, in ascending order, and
    /// within the 39-bit virtual address space. The link step must
    /// guarantee this; nothing here validates it at run time.
    pub open spec fn wf(self) -> bool {
        &&& page_aligned(self.text_start)
        &&& page_aligned(self.text_end)
        &&& page_aligned(self.rodata_start)
        &&& page_aligned(self.rodata_end)
        &&& page_aligned(self.data_start)
        &&& page_aligned(self.data_end)
        &&& page_aligned(self.bss_start)
        &&& page_aligned(self.heap_end)
        &&& self.text_start <= self.text_end <= self.rodata_start <= self.rodata_end
            <= self.data_start <= self.data_end <= self.bss_start <= self.heap_end
        &&& self.heap_end <= 0x80_0000_0000
    }

    /// Pages the image occupies in total, over all four mapped ranges.
    pub open spec fn total_pages(self) -> int {
        (self.text_end - self.text_start) / 4096 + (self.rodata_end - self.rodata_start) / 4096 + (
        self.data_end - self.data_start) / 4096 + (self.heap_end - self.bss_start) / 4096
    }
}

/// Map every page-aligned address of `[start, end)` onto itself with the
/// given permissions. Success is owed whenever the provider holds two
/// frames per page; on exhaustion the provider is drained, some tail of
/// the range is left unmapped, and no page outside the range moves.
pub fn identity_map_range<A: FrameSource>(
    root: &mut PageTableTree,
    allocator: &mut A,
    start: usize,
    end: usize,
    flags: PageEntryFlag,
) -> (r: Result<(), AllocError>)
    requires
        old(root).wf(),
        old(allocator).inv(),
        old(allocator).may_provide().disjoint(old(root).used_ppns()),
        flags.is_leaf_perm(),
        page_aligned(start),
        page_aligned(end),
        start <= end,
        end <= 0x80_0000_0000,
    ensures
        final(root).wf(),
        final(allocator).inv(),
        final(allocator).may_provide().disjoint(final(root).used_ppns()),
        final(root).root_ppn_spec() == old(root).root_ppn_spec(),
        forall|v2: usize|
            page_aligned(v2) && v2 < 0x80_0000_0000 && !(start <= v2 < end)
                ==> #[trigger] final(root).translation(v2) == old(root).translation(v2),
        r is Ok ==> forall|a: usize|
            page_aligned(a) && start <= a < end ==> #[trigger] final(root).translation(a) == Some(
                spec_leaf(spec_addr_ppn(a), flags@),
            ),
        r is Ok ==> final(allocator).avail() >= old(allocator).avail() - 2 * ((end - start) / 4096),
        r is Err ==> final(allocator).avail() == 0,
        old(allocator).avail() >= 2 * ((end - start) / 4096) ==> r is Ok,
{
    let mut p = start;
    let ghost mut g: int = 0;
    while p < end
        invariant
            root.wf(),
            allocator.inv(),
            allocator.may_provide().disjoint(root.used_ppns()),
            root.root_ppn_spec() == old(root).root_ppn_spec(),
            flags.is_leaf_perm(),
            page_aligned(start),
            page_aligned(p),
            page_aligned(end),
            start <= p <= end,
            end <= 0x80_0000_0000,
            p == start + 4096 * g,
            allocator.avail() >= old(allocator).avail() - 2 * g,
            forall|a: usize|
                page_aligned(a) && start <= a < p ==> #[trigger] root.translation(a) == Some(
                    spec_leaf(spec_addr_ppn(a), flags@),
                ),
            forall|v2: usize|
                page_aligned(v2) && v2 < 0x80_0000_0000 && !(start <= v2 < p)
                    ==> #[trigger] root.translation(v2) == old(root).translation(v2),
        decreases end - p,
    {
        proof {
            assert(p + 4096 <= end) by (nonlinear_arith)
                requires
                    p % 4096 == 0,
                    end % 4096 == 0,
                    p < end,
            ;
        }
        let vpage = Page::new(VirtualAddress::new(p)).unwrap();
        let ppage = Page::new(PhysicalAddress::new(p)).unwrap();
        let ghost pre_tree = *root;
        let ghost pre_avail = allocator.avail();

        match root.map(allocator, vpage, ppage, flags) {
            Err(e) => {
                proof {
                    // the provider is drained; it cannot have held
                    // two frames per page of the whole range
                    pre_tree.lemma_missing_bound(p);
                    assert(g < (end - start) / 4096) by (nonlinear_arith)
                        requires
                            p == start + 4096 * g,
                            p < end,
                            p % 4096 == 0,
                            end % 4096 == 0,
                            start % 4096 == 0,
                    ;
                    assert forall|v2: usize|
                        page_aligned(v2) && v2 < 0x80_0000_0000 && !(start <= v2
                            < end) implies #[trigger] root.translation(v2) == old(
                        root,
                    ).translation(v2) by {
                        lemma_distinct_pages(v2, p);
                    }
                }
                return Err(e);
            },
            Ok(_) => {},
        }
        proof {
            pre_tree.lemma_missing_bound(p);
            assert forall|a: usize|
                page_aligned(a) && start <= a < p + 4096 implies #[trigger] root.translation(a)
                == Some(spec_leaf(spec_addr_ppn(a), flags@)) by {
                if a < p {
                    lemma_distinct_pages(a, p);
                    assert(pre_tree.translation(a) == Some(
                        spec_leaf(spec_addr_ppn(a), flags@),
                    ));
                } else {
                    assert(a + 0 <= p + 4095) by (nonlinear_arith)
                        requires
                            a % 4096 == 0,
                            p % 4096 == 0,
                            a < p + 4096,
                    ;
                    assert(a == p);
                }
            }
            assert forall|v2: usize|
                page_aligned(v2) && v2 < 0x80_0000_0000 && !(start <= v2 < p
                    + 4096) implies #[trigger] root.translation(v2) == old(
                root,
            ).translation(v2) by {
                lemma_distinct_pages(v2, p);
            }
            g = g + 1;
        }
        p = p + PAGE_SIZE;
    }
    proof {
        assert(g == (end - start) / 4096) by (nonlinear_arith)
            requires
                p == start + 4096 * g,
                p == end,
                g >= 0,
        ;
    }
    Ok(())
}

/// Identity-map each declared kernel-image section with its permission
/// policy: code read+execute, read-only data read, initialized data and
/// the zero-initialized region with the boot heap read+write. Success is
/// owed whenever the provider holds two frames per image page; on
/// exhaustion the provider is drained and some section tail is left
/// unmapped.
pub fn map_kernel_memory<A: FrameSource>(
    root: &mut PageTableTree,
    allocator: &mut A,
    image: KernelImage,
) -> (r: Result<(), AllocError>)
    requires
        old(root).wf(),
        old(allocator).inv(),
        old(allocator).may_provide().disjoint(old(root).used_ppns()),
        image.wf(),
    ensures
        final(root).wf(),
        final(allocator).inv(),
        final(allocator).may_provide().disjoint(final(root).used_ppns()),
        final(root).root_ppn_spec() == old(root).root_ppn_spec(),
        forall|v2: usize|
            page_aligned(v2) && v2 < 0x80_0000_0000 && !(image.text_start <= v2 < image.text_end)
                && !(image.rodata_start <= v2 < image.rodata_end) && !(image.data_start <= v2
                < image.data_end) && !(image.bss_start <= v2 < image.heap_end)
                ==> #[trigger] final(root).translation(v2) == old(root).translation(v2),
        r is Ok ==> {
            &&& forall|a: usize|
                page_aligned(a) && image.text_start <= a < image.text_end
                    ==> #[trigger] final(root).translation(a) == Some(
                    spec_leaf(spec_addr_ppn(a), crate::vm::FLAG_READ | crate::vm::FLAG_EXEC),
                )
            &&& forall|a: usize|
                page_aligned(a) && image.rodata_start <= a < image.rodata_end
                    ==> #[trigger] final(root).translation(a) == Some(
                    spec_leaf(spec_addr_ppn(a), crate::vm::FLAG_READ),
                )
            &&& forall|a: usize|
                page_aligned(a) && image.data_start <= a < image.data_end
                    ==> #[trigger] final(root).translation(a) == Some(
                    spec_leaf(spec_addr_ppn(a), crate::vm::FLAG_READ | crate::vm::FLAG_WRITE),
                )
            &&& forall|a: usize|
                page_aligned(a) && image.bss_start <= a < image.heap_end
                    ==> #[trigger] final(root).translation(a) == Some(
                    spec_leaf(spec_addr_ppn(a), crate::vm::FLAG_READ | crate::vm::FLAG_WRITE),
                )
        },
        r is Err ==> final(allocator).avail() == 0,
        old(allocator).avail() >= 2 * image.total_pages() ==> r is Ok,
{
    let rx = PageEntryFlag::read().or(PageEntryFlag::execute());
    let ro = PageEntryFlag::read();
    let rw = PageEntryFlag::read().or(PageEntryFlag::write());
    proof {
        let ghost rxb = rx@;
        let ghost rob = ro@;
        let ghost rwb = rw@;
        assert(rxb & !(crate::vm::FLAG_READ | crate::vm::FLAG_WRITE | crate::vm::FLAG_EXEC)
            == 0 && rxb != 0 && rob & !(crate::vm::FLAG_READ | crate::vm::FLAG_WRITE
            | crate::vm::FLAG_EXEC) == 0 && rob != 0 && rwb & !(crate::vm::FLAG_READ
            | crate::vm::FLAG_WRITE | crate::vm::FLAG_EXEC) == 0 && rwb != 0) by (bit_vector)
            requires
                rxb == crate::vm::FLAG_READ | crate::vm::FLAG_EXEC,
                rob == crate::vm::FLAG_READ,
                rwb == crate::vm::FLAG_READ | crate::vm::FLAG_WRITE,
        ;
    }

    match identity_map_range(root, allocator, image.text_start, image.text_end, rx) {
        Err(e) => {
            return Err(e);
        },
        Ok(_) => {},
    }
    match identity_map_range(root, allocator, image.rodata_start, image.rodata_end, ro) {
        Err(e) => {
            return Err(e);
        },
        Ok(_) => {},
    }
    match identity_map_range(root, allocator, image.data_start, image.data_end, rw) {
        Err(e) => {
            return Err(e);
        },
        Ok(_) => {},
    }
    match identity_map_range(root, allocator, image.bss_start, image.heap_end, rw) {
        Err(e) => {
            return Err(e);
        },
        Ok(_) => {},
    }

    Ok(())
}

} // verus!

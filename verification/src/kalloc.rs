//! Boot-time allocators: a reference-counted bump arena over a described
//! memory region, and two interchangeable physical-frame allocators (a
//! monotonic bump cursor and an in-place free list).

use vstd::prelude::*;

use vstd::arithmetic::div_mod::lemma_fundamental_div_mod;
use vstd::arithmetic::div_mod::lemma_fundamental_div_mod_converse;
use vstd::arithmetic::div_mod::lemma_mod_bound;

use crate::vm::Ppn;
use crate::vm::PhysicalAddress;
use crate::vm::page_aligned;
use crate::PAGE_SIZE;

verus! {

/// A backing store's pool or buffer is exhausted. Recoverable: the caller
/// receives it synchronously and decides.
#[derive(Clone, Copy, Debug, PartialEq, Eq, Structural)]
pub struct AllocError;

/// A contiguous region handed out by the arena: a start address and a
/// size in bytes.
#[derive(Clone, Copy, Debug, PartialEq, Eq, Structural)]
pub struct Region {
    pub start: usize,
    pub size: usize,
}

/// Bytes inserted before `addr` so that the next region starts aligned:
/// the distance from `addr` up to the next multiple of `align`.
pub open spec fn spec_align_pad(addr: usize, align: usize) -> int
    recommends
        align >= 1,
{
    if addr % align == 0 {
        0
    } else {
        align - addr % align
    }
}

/// A reference-counted bump allocator over a caller-described, fixed-size
/// contiguous region. It backs data structures created before a true heap
/// exists. Not thread-safe: single-threaded, cooperative boot-time use.
pub struct Allocator {
    base: usize,
    len: usize,
    bp: usize,
    allocations: usize,
}

impl Allocator {
    /// Base address of the described region.
    pub closed spec fn base(self) -> usize {
        self.base
    }

    /// Length in bytes of the described region.
    pub closed spec fn len(self) -> usize {
        self.len
    }

    /// Current bump offset from the base.
    pub closed spec fn bp(self) -> usize {
        self.bp
    }

    /// Number of live allocations.
    pub closed spec fn allocations(self) -> usize {
        self.allocations
    }

    /// The region does not wrap the address space; the bump pointer stays
    /// inside it; every live allocation consumed at least one byte.
    pub open spec fn wf(self) -> bool {
        &&& self.base() + self.len() <= usize::MAX
        &&& self.bp() <= self.len()
        &&& self.allocations() <= self.bp()
    }

    /// A fresh arena over the region `[base, base + len)`, with the bump
    /// pointer at the start and no live allocations.
    pub fn new(base: usize, len: usize) -> (r: Self)
        requires
            base + len <= usize::MAX,
        ensures
            r.wf(),
            r.base() == base,
            r.len() == len,
            r.bp() == 0,
            r.allocations() == 0,
    {
        Self { base, len, bp: 0, allocations: 0 }
    }

    /// Carve the next aligned region of `size` bytes out of the buffer.
    ///
    /// A zero-size request succeeds without consuming space and returns a
    /// dangling, aligned placeholder region. Otherwise the request
    /// succeeds exactly when the padding up to alignment plus the size
    /// fits in what remains; the bump pointer then advances by both, and
    /// the live-allocation count grows by one.
    pub fn allocate(&mut self, size: usize, align: usize) -> (r: Result<Region, AllocError>)
        requires
            old(self).wf(),
            align >= 1,
            size + align <= usize::MAX,
        ensures
            final(self).wf(),
            final(self).base() == old(self).base(),
            final(self).len() == old(self).len(),
            size == 0 ==> r == Ok::<Region, AllocError>(Region { start: align, size: 0 })
                && *final(self) == *old(self),
            size > 0 && spec_align_pad(
                (old(self).base() + old(self).bp()) as usize,
                align,
            ) + size <= old(self).len() - old(self).bp() ==> {
                &&& r matches Ok(reg)
                &&& reg.start == old(self).base() + old(self).bp() + spec_align_pad(
                    (old(self).base() + old(self).bp()) as usize,
                    align,
                )
                &&& reg.size == size
                &&& reg.start % align == 0
                &&& final(self).bp() == old(self).bp() + spec_align_pad(
                    (old(self).base() + old(self).bp()) as usize,
                    align,
                ) + size
                &&& final(self).allocations() == old(self).allocations() + 1
            },
            size > 0 && spec_align_pad(
                (old(self).base() + old(self).bp()) as usize,
                align,
            ) + size > old(self).len() - old(self).bp() ==> r
                == Err::<Region, AllocError>(AllocError) && *final(self) == *old(self),
    {
        if size == 0 {
            return Ok(Region { start: align, size: 0 });
        }

        let p = self.base + self.bp;
        let rem = p % align;
        let pad = if rem == 0 {
            0
        } else {
            align - rem
        };
        let left = self.len - self.bp;

        if size > left || pad > left - size {
            return Err(AllocError);
        }

        let start = p + pad;
        proof {
            assert((p + pad) % (align as int) == 0) by (nonlinear_arith)
                requires
                    align >= 1,
                    rem == p % align,
                    pad == (if rem == 0 { 0int } else { align - rem }),
            ;
        }
        self.bp = self.bp + pad + size;
        self.allocations = self.allocations + 1;

        Ok(Region { start, size })
    }

    /// Release one live allocation. The arena does not reclaim the
    /// region's own space; when the last live allocation is released the
    /// bump pointer returns to the start, reclaiming the whole arena.
    pub fn deallocate(&mut self, _region: Region)
        requires
            old(self).wf(),
            old(self).allocations() >= 1,
        ensures
            final(self).wf(),
            final(self).base() == old(self).base(),
            final(self).len() == old(self).len(),
            final(self).allocations() == old(self).allocations() - 1,
            final(self).bp() == if old(self).allocations() == 1 {
                0usize
            } else {
                old(self).bp()
            },
    {
        self.allocations = self.allocations - 1;

        if self.allocations == 0 {
            self.bp = 0;
        }
    }
}

/// Shifting an address right by 12 divides it by the page size.
pub proof fn lemma_shr12_div(a: usize)
    ensures
        a >> 12 == a / 4096,
{
    assert(a >> 12 == a / 4096) by (bit_vector);
}

/// A provider of whole physical frames for the page-table engine. Any
/// backing store that can hand out unused page frames may stand behind
/// the engine's `map` operation.
pub trait FrameSource: Sized {
    /// The provider's internal invariant.
    spec fn inv(&self) -> bool;

    /// Frame numbers this provider might still hand out.
    spec fn may_provide(&self) -> Set<usize>;

    /// How many frames are still available.
    spec fn avail(&self) -> nat;

    /// Hand out one unused frame, or nothing when none remain. A frame,
    /// once handed out, is never handed out again before it is returned
    /// to the provider.
    fn alloc_frame(&mut self) -> (r: Option<Ppn>)
        requires
            old(self).inv(),
        ensures
            final(self).inv(),
            r is Some <==> old(self).avail() > 0,
            r is None ==> *final(self) == *old(self),
            final(self).avail() == if old(self).avail() > 0 {
                (old(self).avail() - 1) as nat
            } else {
                old(self).avail()
            },
            final(self).may_provide().subset_of(old(self).may_provide()),
            r matches Some(f) ==> old(self).may_provide().contains(f@)
                && !final(self).may_provide().contains(f@)
                && f@ <= 0xfff_ffff_ffff,
    ;
}

/// The monotonic bump variant of the physical-frame allocator: a single
/// cursor over a declared heap range. `alloc` advances the cursor one
/// page at a time; `dealloc` is a no-op, so freed frames are never
/// reclaimed.
pub struct BumpFrameAllocator {
    cursor: usize,
    end: usize,
}

impl BumpFrameAllocator {
    /// The next frame to hand out.
    pub closed spec fn cursor(self) -> usize {
        self.cursor
    }

    /// One past the last usable address.
    pub closed spec fn end(self) -> usize {
        self.end
    }

    /// Both bounds are page-aligned, in order, and within the 56-bit
    /// physical address space.
    pub open spec fn wf(self) -> bool {
        &&& page_aligned(self.cursor())
        &&& page_aligned(self.end())
        &&& self.cursor() <= self.end()
        &&& self.end() <= 0x100_0000_0000_0000
    }

    /// A fresh allocator over the declared range `[start, end)`.
    pub fn new(start: PhysicalAddress, end: PhysicalAddress) -> (r: Self)
        requires
            page_aligned(start@),
            page_aligned(end@),
            start@ <= end@,
            end@ <= 0x100_0000_0000_0000,
        ensures
            r.wf(),
            r.cursor() == start@,
            r.end() == end@,
    {
        Self { cursor: start.get(), end: end.get() }
    }

    /// Hand out the frame at the cursor and advance one page; fail once
    /// the range is exhausted.
    pub fn alloc_page(&mut self) -> (r: Option<PhysicalAddress>)
        requires
            old(self).wf(),
        ensures
            final(self).wf(),
            final(self).end() == old(self).end(),
            r is Some <==> old(self).cursor() < old(self).end(),
            r matches Some(f) ==> f@ == old(self).cursor() && page_aligned(f@)
                && final(self).cursor() == old(self).cursor() + PAGE_SIZE,
            r is None ==> *final(self) == *old(self),
    {
        if self.cursor < self.end {
            let head = self.cursor;
            proof {
                assert(self.cursor + 4096 <= self.end) by (nonlinear_arith)
                    requires
                        self.cursor % 4096 == 0,
                        self.end % 4096 == 0,
                        self.cursor < self.end,
                ;
            }
            self.cursor = self.cursor + PAGE_SIZE;
            Some(PhysicalAddress::new(head))
        } else {
            None
        }
    }

    /// Return a frame to the pool: a no-op in this variant, which
    /// permanently leaks every freed frame.
    pub fn dealloc_page(&mut self, _frame: PhysicalAddress)
        requires
            old(self).wf(),
        ensures
            *final(self) == *old(self),
    {
    }
}

impl FrameSource for BumpFrameAllocator {
    open spec fn inv(&self) -> bool {
        self.wf()
    }

    open spec fn may_provide(&self) -> Set<usize> {
        Set::new(|p: usize| self.cursor() / 4096 <= p < self.end() / 4096)
    }

    open spec fn avail(&self) -> nat {
        ((self.end() - self.cursor()) / 4096) as nat
    }

    fn alloc_frame(&mut self) -> (r: Option<Ppn>) {
        proof {
            assert((self.end - self.cursor) % 4096 == 0 && self.cursor / 4096 + (self.end
                - self.cursor) / 4096 == self.end / 4096) by (nonlinear_arith)
                requires
                    self.cursor % 4096 == 0,
                    self.end % 4096 == 0,
                    self.cursor <= self.end,
            ;
        }
        let ghost old_cursor = self.cursor;
        match self.alloc_page() {
            Some(f) => {
                proof {
                    lemma_shr12_div(f@);
                    assert((old_cursor + 4096) / 4096 == old_cursor / 4096 + 1)
                        by (nonlinear_arith)
                        requires
                            old_cursor % 4096 == 0,
                    ;
                    assert((self.end - (old_cursor + 4096)) / 4096 == (self.end - old_cursor)
                        / 4096 - 1) by (nonlinear_arith)
                        requires
                            old_cursor % 4096 == 0,
                            self.end % 4096 == 0,
                            old_cursor + 4096 <= self.end,
                    ;
                }
                Some(Ppn::from_addr(f.get()))
            },
            None => None,
        }
    }
}

/// The first whole page the arena can still hand out, as a frame number:
/// the bump position padded up to a page boundary.
pub open spec fn spec_arena_next_page(a: Allocator) -> int {
    (a.base() + a.bp() + spec_align_pad((a.base() + a.bp()) as usize, 4096)) / 4096
}

/// One past the last whole page inside the arena's region.
pub open spec fn spec_arena_top_page(a: Allocator) -> int {
    (a.base() + a.len()) / 4096
}

/// The arena can stand behind the page-table engine: one request per
/// frame, page-sized and page-aligned, exactly as the engine's own
/// nodes need.
impl FrameSource for Allocator {
    /// Beyond the arena's own invariant, the region must lie in the
    /// 56-bit physical address space for its pages to be encodable.
    open spec fn inv(&self) -> bool {
        self.wf() && self.base() + self.len() <= 0x100_0000_0000_0000
    }

    open spec fn may_provide(&self) -> Set<usize> {
        Set::new(|p: usize| spec_arena_next_page(*self) <= p < spec_arena_top_page(*self))
    }

    open spec fn avail(&self) -> nat {
        if spec_arena_next_page(*self) <= spec_arena_top_page(*self) {
            (spec_arena_top_page(*self) - spec_arena_next_page(*self)) as nat
        } else {
            0
        }
    }

    fn alloc_frame(&mut self) -> (r: Option<Ppn>) {
        let ghost pre = *self;
        let ghost pb = pre.base() + pre.bp();
        let ghost pad = spec_align_pad((pre.base() + pre.bp()) as usize, 4096);
        proof {
            assert(pb + pad == 4096 * ((pb + pad) / 4096) && 0 <= pad < 4096) by (nonlinear_arith)
                requires
                    pad == (if pb % 4096 == 0 { 0int } else { 4096 - pb % 4096 }),
                    0 <= pb,
            ;
        }
        proof {
            lemma_fundamental_div_mod(pre.base() + pre.len(), 4096);
            lemma_mod_bound(pre.base() + pre.len(), 4096);
        }
        let ghost next = spec_arena_next_page(pre);
        match self.allocate(PAGE_SIZE, PAGE_SIZE) {
            Err(_) => {
                proof {
                    // the next whole page starts past the region's end
                    assert(spec_arena_top_page(pre) <= next);
                }
                None
            },
            Ok(reg) => {
                let f = Ppn::from_addr(reg.start);
                proof {
                    lemma_shr12_div(reg.start);
                    let post = *self;
                    assert(reg.start == pb + pad && pb + pad == 4096 * next);
                    assert(f@ == next) by {
                        lemma_fundamental_div_mod_converse(pb + pad, 4096, next, 0);
                    }
                    assert(next < spec_arena_top_page(pre) && f@ <= 0xfff_ffff_ffff);
                    assert(post.base() + post.bp() == 4096 * (next + 1));
                    assert((post.base() + post.bp()) % 4096 == 0 && spec_arena_next_page(post)
                        == next + 1) by {
                        lemma_fundamental_div_mod_converse(4096 * (next + 1), 4096, next + 1, 0);
                    }
                    assert forall|p: usize| final(self).may_provide().contains(p) implies
                        pre.may_provide().contains(p) && p != f@ by {}
                }
                Some(f)
            },
        }
    }
}

/// What a frame's own storage holds while the free-list allocator manages
/// it: either the free-list node written in place into the unused frame
/// (a link to the next free frame, absent for the last), or a live value
/// owned by whoever the frame was handed to.
#[derive(Clone, Copy, Debug)]
pub enum FrameSlot {
    Node { next: Option<usize> },
    InUse,
}

/// The free-list variant of the physical-frame allocator. At
/// initialization the declared heap range is partitioned into page frames
/// threaded into a singly linked list stored inside the frames
/// themselves; `alloc` pops the head and `dealloc` pushes onto it, both
/// O(1) with no external bookkeeping memory.
pub struct FreeListAllocator {
    base_ppn: usize,
    npages: usize,
    slots: Vec<FrameSlot>,
    head: Option<usize>,
    free: Ghost<Seq<usize>>,
}

impl FreeListAllocator {
    /// Frame number of the first frame of the managed range.
    pub closed spec fn base_ppn(self) -> usize {
        self.base_ppn
    }

    /// Number of frames in the managed range.
    pub closed spec fn npages(self) -> usize {
        self.npages
    }

    /// The free frames, most recently freed first: the list reachable
    /// from the head by following the in-place links.
    pub closed spec fn free_list(self) -> Seq<usize> {
        self.free@
    }

    /// The managed range fits the 44-bit frame-number space; every free
    /// frame lies in the range, none is listed twice; the head is the
    /// first listed frame; and each listed frame's own storage word holds
    /// the link to the one after it.
    pub closed spec fn wf(self) -> bool {
        &&& self.slots@.len() == self.npages
        &&& self.base_ppn + self.npages <= 0x1000_0000_0000
        &&& self.free@.no_duplicates()
        &&& forall|k: int|
            0 <= k < self.free@.len() ==> self.base_ppn <= #[trigger] self.free@[k] < self.base_ppn
                + self.npages
        &&& self.head == (if self.free@.len() == 0 {
            Option::<usize>::None
        } else {
            Option::<usize>::Some(self.free@[0])
        })
        &&& forall|k: int|
            0 <= k < self.free@.len() ==> #[trigger] self.slots@[self.free@[k] - self.base_ppn]
                == (FrameSlot::Node {
                next: if k + 1 < self.free@.len() {
                    Option::<usize>::Some(self.free@[k + 1])
                } else {
                    Option::<usize>::None
                },
            })
    }

    /// Every free frame's number lies in the managed range and the list
    /// holds no frame twice.
    pub proof fn lemma_wf_bounds(self)
        requires
            self.wf(),
        ensures
            self.free_list().no_duplicates(),
            forall|k: int|
                0 <= k < self.free_list().len() ==> self.base_ppn()
                    <= #[trigger] self.free_list()[k] < self.base_ppn() + self.npages(),
            self.base_ppn() + self.npages() <= 0x1000_0000_0000,
    {
    }

    /// Partition the declared range `[start, end)` into page frames and
    /// thread them into a list in ascending address order.
    pub fn new(start: PhysicalAddress, end: PhysicalAddress) -> (r: Self)
        requires
            page_aligned(start@),
            page_aligned(end@),
            start@ <= end@,
            end@ <= 0x100_0000_0000_0000,
        ensures
            r.wf(),
            r.base_ppn() == start@ / 4096,
            r.npages() == (end@ - start@) / 4096,
            r.free_list() == Seq::new(
                ((end@ - start@) / 4096) as nat,
                |k: int| (start@ / 4096 + k) as usize,
            ),
    {
        proof {
            lemma_shr12_div(start@);
            lemma_shr12_div(end@);
            assert((end@ - start@) / 4096 == end@ / 4096 - start@ / 4096) by (nonlinear_arith)
                requires
                    start@ % 4096 == 0,
                    end@ % 4096 == 0,
                    start@ <= end@,
            ;
            assert(end@ / 4096 <= end@ && end@ / 4096 <= 0x100_0000_0000_0000int / 4096)
                by (nonlinear_arith)
                requires
                    end@ <= 0x100_0000_0000_0000,
            ;
        }
        let base_ppn = start.get() >> 12;
        let end_ppn = end.get() >> 12;
        let npages = end_ppn - base_ppn;

        let mut slots: Vec<FrameSlot> = Vec::new();
        let mut i: usize = 0;
        while i < npages
            invariant
                i <= npages,
                slots@.len() == i,
                base_ppn + npages <= 0x1000_0000_0000,
                base_ppn + npages <= usize::MAX,
                forall|j: int|
                    0 <= j < i ==> #[trigger] slots@[j] == (FrameSlot::Node {
                        next: if j + 1 < npages {
                            Option::<usize>::Some((base_ppn + j + 1) as usize)
                        } else {
                            Option::<usize>::None
                        },
                    }),
            decreases npages - i,
        {
            let next = if i + 1 < npages {
                Some(base_ppn + i + 1)
            } else {
                None
            };
            slots.push(FrameSlot::Node { next });
            i += 1;
        }

        let head = if npages > 0 {
            Some(base_ppn)
        } else {
            None
        };
        let r = Self {
            base_ppn,
            npages,
            slots,
            head,
            free: Ghost(Seq::new(npages as nat, |k: int| (base_ppn + k) as usize)),
        };
        proof {
            assert forall|k: int| 0 <= k < r.free@.len() implies #[trigger] r.slots@[r.free@[k]
                - r.base_ppn] == (FrameSlot::Node {
                next: if k + 1 < r.free@.len() {
                    Option::<usize>::Some(r.free@[k + 1])
                } else {
                    Option::<usize>::None
                },
            }) by {
                assert(r.free@[k] == base_ppn + k);
            }
        }
        r
    }

    /// Pop the head of the free list, writing the frame's storage word
    /// over as a live value; fail when the list is empty.
    pub fn alloc_page(&mut self) -> (r: Option<Ppn>)
        requires
            old(self).wf(),
        ensures
            final(self).wf(),
            final(self).base_ppn() == old(self).base_ppn(),
            final(self).npages() == old(self).npages(),
            r is Some <==> old(self).free_list().len() > 0,
            r matches Some(f) ==> f@ == old(self).free_list()[0] && final(self).free_list()
                == old(self).free_list().skip(1),
            r is None ==> *final(self) == *old(self),
    {
        match self.head {
            None => None,
            Some(h) => {
                let idx = h - self.base_ppn;
                let slot = self.slots[idx];
                match slot {
                    FrameSlot::Node { next } => {
                        let ghost old_free = self.free@;
                        self.head = next;
                        self.slots.set(idx, FrameSlot::InUse);
                        proof {
                            self.free@ = old_free.skip(1);
                            assert forall|k: int|
                                0 <= k < self.free@.len() implies #[trigger] self.slots@[
                                self.free@[k] - self.base_ppn] == (FrameSlot::Node {
                                next: if k + 1 < self.free@.len() {
                                    Option::<usize>::Some(self.free@[k + 1])
                                } else {
                                    Option::<usize>::None
                                },
                            }) by {
                                assert(self.free@[k] == old_free[k + 1]);
                                assert(old_free[k + 1] != old_free[0]);
                            }
                            assert forall|k: int|
                                0 <= k < self.free@.len() implies self.base_ppn
                                <= #[trigger] self.free@[k] < self.base_ppn + self.npages by {
                                assert(self.free@[k] == old_free[k + 1]);
                            }
                        }
                        Some(Ppn::new(h))
                    },
                    FrameSlot::InUse => {
                        proof {
                            assert(false);
                        }
                        None
                    },
                }
            },
        }
    }

    /// Push a frame previously handed out back onto the head of the free
    /// list, writing the node in place into the frame's own storage.
    /// Freeing a frame never handed out, or one already free, is outside
    /// this contract.
    pub fn dealloc_page(&mut self, frame: Ppn)
        requires
            old(self).wf(),
            old(self).base_ppn() <= frame@ < old(self).base_ppn() + old(self).npages(),
            !old(self).free_list().contains(frame@),
        ensures
            final(self).wf(),
            final(self).base_ppn() == old(self).base_ppn(),
            final(self).npages() == old(self).npages(),
            final(self).free_list() == seq![frame@] + old(self).free_list(),
    {
        let ghost old_free = self.free@;
        let idx = frame.get() - self.base_ppn;
        self.slots.set(idx, FrameSlot::Node { next: self.head });
        self.head = Some(frame.get());
        proof {
            self.free@ = seq![frame@] + old_free;
            assert forall|k: int| 0 <= k < self.free@.len() implies #[trigger] self.slots@[
            self.free@[k] - self.base_ppn] == (FrameSlot::Node {
                next: if k + 1 < self.free@.len() {
                    Option::<usize>::Some(self.free@[k + 1])
                } else {
                    Option::<usize>::None
                },
            }) by {
                if k == 0 {
                    assert(self.free@[0] == frame@);
                } else {
                    assert(self.free@[k] == old_free[k - 1]);
                    assert(old_free.contains(old_free[k - 1]));
                    assert(old_free[k - 1] != frame@);
                }
            }
        }
    }
}

impl FrameSource for FreeListAllocator {
    open spec fn inv(&self) -> bool {
        self.wf()
    }

    open spec fn may_provide(&self) -> Set<usize> {
        Set::new(|p: usize| self.free_list().contains(p))
    }

    open spec fn avail(&self) -> nat {
        self.free_list().len()
    }

    fn alloc_frame(&mut self) -> (r: Option<Ppn>) {
        let ghost old_free = self.free_list();
        let r = self.alloc_page();
        proof {
            if r is Some {
                let f = r->Some_0;
                assert(old_free.contains(f@)) by {
                    assert(old_free[0] == f@);
                }
                assert(!self.free_list().contains(f@)) by {
                    if self.free_list().contains(f@) {
                        let i = choose|i: int|
                            0 <= i < self.free_list().len() && self.free_list()[i] == f@;
                        assert(old_free[i + 1] == old_free[0]);
                    }
                }
                assert forall|p: usize| self.free_list().contains(p) implies old_free.contains(
                    p,
                ) by {
                    let i = choose|i: int|
                        0 <= i < self.free_list().len() && self.free_list()[i] == p;
                    assert(old_free[i + 1] == p);
                }
                self.lemma_wf_bounds();
            }
        }
        r
    }
}

} // verus!

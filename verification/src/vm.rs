//! Typed address values for the Sv39 three-level paging scheme: physical
//! and virtual byte addresses, physical frame numbers, page-aligned address
//! wrappers, and the bit-exact encoding of hardware page-table entries.

use vstd::prelude::*;

use crate::PAGE_SIZE;

verus! {

/// Entry bit 0: the entry takes part in translation.
pub const FLAG_VALID: u64 = 1;

/// Entry bit 1: readable.
pub const FLAG_READ: u64 = 2;

/// Entry bit 2: writable.
pub const FLAG_WRITE: u64 = 4;

/// Entry bit 3: executable.
pub const FLAG_EXEC: u64 = 8;

/// Entry bit 6: the page has been accessed.
pub const FLAG_ACCESSED: u64 = 64;

/// Entry bit 7: the page has been written.
pub const FLAG_DIRTY: u64 = 128;

/// An address is page-aligned when it is a multiple of the page size.
pub open spec fn page_aligned(a: usize) -> bool {
    a % 4096 == 0
}

/// The level-0 (least significant) 9-bit page-table index of an address.
pub open spec fn spec_vpn0(v: usize) -> int {
    (v >> 12 & 0x1ff) as int
}

/// The level-1 9-bit page-table index of an address.
pub open spec fn spec_vpn1(v: usize) -> int {
    (v >> 21 & 0x1ff) as int
}

/// The level-2 (most significant) 9-bit page-table index of an address.
pub open spec fn spec_vpn2(v: usize) -> int {
    (v >> 30 & 0x1ff) as int
}

/// Two addresses fall on the same mapped page when all three of their
/// page-table indices agree.
pub open spec fn same_page(a: usize, b: usize) -> bool {
    spec_vpn2(a) == spec_vpn2(b) && spec_vpn1(a) == spec_vpn1(b) && spec_vpn0(a) == spec_vpn0(b)
}

/// Each 9-bit index is below 512.
pub proof fn lemma_vpn_bounds(v: usize)
    ensures
        0 <= spec_vpn0(v) < 512,
        0 <= spec_vpn1(v) < 512,
        0 <= spec_vpn2(v) < 512,
{
    assert(v >> 12 & 0x1ff < 512 && v >> 21 & 0x1ff < 512 && v >> 30 & 0x1ff < 512)
        by (bit_vector);
}

/// Two distinct page-aligned addresses inside the 39-bit virtual address
/// space never share all three page-table indices.
pub proof fn lemma_distinct_pages(a: usize, b: usize)
    requires
        page_aligned(a),
        page_aligned(b),
        a < 0x80_0000_0000,
        b < 0x80_0000_0000,
        a != b,
    ensures
        !same_page(a, b),
{
    assert(!(a >> 30 & 0x1ff == b >> 30 & 0x1ff && a >> 21 & 0x1ff == b >> 21 & 0x1ff && a >> 12
        & 0x1ff == b >> 12 & 0x1ff)) by (bit_vector)
        requires
            a % 4096 == 0,
            b % 4096 == 0,
            a < 0x80_0000_0000,
            b < 0x80_0000_0000,
            a != b,
    ;
}

/// A raw byte offset into physical memory. A thin wrapper: no bound or
/// alignment is enforced by construction.
#[derive(Clone, Copy, Debug)]
pub struct PhysicalAddress(usize);

/// A raw byte offset in the address space the kernel observes. Decomposes
/// into three 9-bit indices plus a 12-bit page offset (Sv39).
#[derive(Clone, Copy, Debug)]
pub struct VirtualAddress(usize);

/// A physical page frame number: a physical address shifted right by 12.
#[derive(Clone, Copy, Debug)]
pub struct Ppn(usize);

impl VirtualAddress {
    /// The raw address as a mathematical value.
    pub closed spec fn view(self) -> usize {
        self.0
    }

    pub fn new(addr: usize) -> (r: Self)
        ensures
            r@ == addr,
    {
        Self(addr)
    }

    pub fn get(self) -> (r: usize)
        ensures
            r == self@,
    {
        self.0
    }

    /// The three 9-bit page-table indices, least-significant level first.
    pub fn vpn(self) -> (r: [usize; 3])
        ensures
            r[0] == self@ >> 12 & 0x1ff,
            r[1] == self@ >> 21 & 0x1ff,
            r[2] == self@ >> 30 & 0x1ff,
    {
        let vpn0 = self.0 >> 12 & 0x1ff;
        let vpn1 = self.0 >> 21 & 0x1ff;
        let vpn2 = self.0 >> 30 & 0x1ff;

        [vpn0, vpn1, vpn2]
    }

    /// The 12-bit offset within the page.
    pub fn offset(self) -> (r: usize)
        ensures
            r == self@ & 0xfff,
    {
        self.0 & 0xfff
    }
}

impl PhysicalAddress {
    /// The raw address as a mathematical value.
    pub closed spec fn view(self) -> usize {
        self.0
    }

    pub fn new(addr: usize) -> (r: Self)
        ensures
            r@ == addr,
    {
        Self(addr)
    }

    pub fn get(self) -> (r: usize)
        ensures
            r == self@,
    {
        self.0
    }

    /// The 44-bit frame number of this address: the three Sv39 sub-fields
    /// (9, 9 and 26 bits) of `addr >> 12`, recombined.
    pub fn ppn(self) -> (r: Ppn)
        ensures
            r@ == spec_addr_ppn(self@),
    {
        let a = self.0 as u64;
        let ppn0 = a >> 12 & 0x1ff;
        let ppn1 = a >> 21 & 0x1ff;
        let ppn2 = a >> 30 & 0x3ff_ffff;

        let r = ppn2 << 18 | ppn1 << 9 | ppn0;
        proof {
            assert(r == (a >> 12) & 0xfff_ffff_ffff) by (bit_vector)
                requires
                    ppn0 == a >> 12 & 0x1ff,
                    ppn1 == a >> 21 & 0x1ff,
                    ppn2 == a >> 30 & 0x3ff_ffff,
                    r == ppn2 << 18 | ppn1 << 9 | ppn0,
            ;
        }
        Ppn(r as usize)
    }
}

/// The frame number encoded by a physical address: the low 44 bits of
/// `addr >> 12`.
pub open spec fn spec_addr_ppn(addr: usize) -> usize {
    (((addr as u64) >> 12) & 0xfff_ffff_ffff) as usize
}

/// A frame number decoded from an address always fits its 44-bit field.
pub proof fn lemma_addr_ppn_bound(addr: usize)
    ensures
        spec_addr_ppn(addr) <= 0xfff_ffff_ffff,
{
    assert(spec_addr_ppn(addr) <= 0xfff_ffff_ffff) by (bit_vector);
}

impl Ppn {
    /// The raw frame number as a mathematical value.
    pub closed spec fn view(self) -> usize {
        self.0
    }

    pub fn new(ppn: usize) -> (r: Self)
        ensures
            r@ == ppn,
    {
        Self(ppn)
    }

    pub fn get(self) -> (r: usize)
        ensures
            r == self@,
    {
        self.0
    }

    /// The frame number containing `addr`: the address without its
    /// 12-bit page offset.
    pub fn from_addr(addr: usize) -> (r: Self)
        ensures
            r@ == addr >> 12,
    {
        Self(addr >> 12)
    }

    /// The base address of this frame.
    pub fn into_addr(self) -> (r: usize)
        ensures
            r == self@ << 12,
    {
        self.0 << 12
    }
}

/// Converting an address to a frame number and back yields the address
/// with its low 12 bits cleared: the round trip is lossless exactly on
/// page-aligned addresses.
pub proof fn lemma_ppn_addr_round_trip(addr: usize)
    ensures
        (addr >> 12) << 12 == addr & !0xfff,
        page_aligned(addr) ==> (addr >> 12) << 12 == addr,
{
    assert((addr >> 12) << 12 == addr & !0xfff) by (bit_vector);
    assert(addr % 4096 == 0 ==> addr & !0xfff == addr) by (bit_vector);
}

/// A trait for the raw value shared by both address spaces, so that a
/// page-aligned wrapper can be generic over the address type.
pub trait Address: Sized + Copy {
    /// The raw byte address.
    spec fn raw(self) -> usize;

    /// Extract the raw byte address.
    fn value(self) -> (r: usize)
        ensures
            r == self.raw(),
    ;
}

impl Address for PhysicalAddress {
    open spec fn raw(self) -> usize {
        self@
    }

    fn value(self) -> (r: usize) {
        self.get()
    }
}

impl Address for VirtualAddress {
    open spec fn raw(self) -> usize {
        self@
    }

    fn value(self) -> (r: usize) {
        self.get()
    }
}

/// An address proven page-aligned at construction time: the system's sole
/// alignment-enforcement mechanism.
#[derive(Clone, Copy, Debug)]
pub struct Page<T>(T);

impl<T: Address> Page<T> {
    /// The raw address held by the wrapper.
    pub closed spec fn view(self) -> usize {
        self.0.raw()
    }

    /// Wrap an address, or return nothing when it is not a multiple of
    /// the page size.
    pub fn new(addr: T) -> (r: Option<Page<T>>)
        ensures
            r is Some <==> page_aligned(addr.raw()),
            r matches Some(p) ==> p@ == addr.raw(),
    {
        if addr.value() % PAGE_SIZE == 0 {
            Some(Page(addr))
        } else {
            None
        }
    }

    /// The wrapped address.
    pub fn address(self) -> (r: T)
        ensures
            r.raw() == self@,
    {
        self.0
    }
}

/// A permission set for a leaf mapping: some subset of the read, write
/// and execute entry bits.
#[derive(Clone, Copy, Debug)]
pub struct PageEntryFlag(u64);

impl PageEntryFlag {
    /// The flag bits as a mathematical value.
    pub closed spec fn view(self) -> u64 {
        self.0
    }

    /// Only read/write/execute bits are set, and at least one of them:
    /// an all-clear permission set would encode a branch, not a leaf.
    pub open spec fn is_leaf_perm(self) -> bool {
        self@ & !(FLAG_READ | FLAG_WRITE | FLAG_EXEC) == 0 && self@ != 0
    }

    pub fn read() -> (r: Self)
        ensures
            r@ == FLAG_READ,
    {
        Self(FLAG_READ)
    }

    pub fn write() -> (r: Self)
        ensures
            r@ == FLAG_WRITE,
    {
        Self(FLAG_WRITE)
    }

    pub fn execute() -> (r: Self)
        ensures
            r@ == FLAG_EXEC,
    {
        Self(FLAG_EXEC)
    }

    /// The union of two permission sets.
    pub fn or(self, other: Self) -> (r: Self)
        ensures
            r@ == self@ | other@,
    {
        Self(self.0 | other.0)
    }
}

/// The bits describe an entry taking part in translation.
pub open spec fn spec_bits_valid(b: u64) -> bool {
    b & FLAG_VALID != 0
}

/// The bits carry at least one permission: a valid entry with these bits
/// terminates translation.
pub open spec fn spec_bits_leaf(b: u64) -> bool {
    b & (FLAG_READ | FLAG_WRITE | FLAG_EXEC) != 0
}

/// A branch entry round-trips: it is valid, carries no permission bits,
/// and decodes back to the frame number it encodes.
pub proof fn lemma_branch_entry(ppn: usize)
    requires
        ppn <= 0xfff_ffff_ffff,
    ensures
        spec_bits_valid(spec_branch(ppn)),
        !spec_bits_leaf(spec_branch(ppn)),
        spec_entry_ppn(spec_branch(ppn)) == ppn,
{
    assert(spec_bits_valid(spec_branch(ppn)) && !spec_bits_leaf(spec_branch(ppn))
        && spec_entry_ppn(spec_branch(ppn)) == ppn) by (bit_vector)
        requires
            ppn <= 0xfff_ffff_ffff,
    ;
}

/// A leaf entry round-trips: it is valid, reproduces exactly the given
/// permission bits, has accessed and dirty preset, and decodes back to
/// the frame number it encodes.
pub proof fn lemma_leaf_entry(ppn: usize, flags: u64)
    requires
        ppn <= 0xfff_ffff_ffff,
        flags & !(FLAG_READ | FLAG_WRITE | FLAG_EXEC) == 0,
        flags != 0,
    ensures
        spec_bits_valid(spec_leaf(ppn, flags)),
        spec_bits_leaf(spec_leaf(ppn, flags)),
        spec_entry_ppn(spec_leaf(ppn, flags)) == ppn,
        spec_leaf(ppn, flags) & FLAG_READ == flags & FLAG_READ,
        spec_leaf(ppn, flags) & FLAG_WRITE == flags & FLAG_WRITE,
        spec_leaf(ppn, flags) & FLAG_EXEC == flags & FLAG_EXEC,
        spec_leaf(ppn, flags) & FLAG_ACCESSED != 0,
        spec_leaf(ppn, flags) & FLAG_DIRTY != 0,
{
    assert(spec_bits_valid(spec_leaf(ppn, flags)) && spec_bits_leaf(spec_leaf(ppn, flags))
        && spec_entry_ppn(spec_leaf(ppn, flags)) == ppn && spec_leaf(ppn, flags) & FLAG_READ
        == flags & FLAG_READ && spec_leaf(ppn, flags) & FLAG_WRITE == flags & FLAG_WRITE
        && spec_leaf(ppn, flags) & FLAG_EXEC == flags & FLAG_EXEC && spec_leaf(ppn, flags)
        & FLAG_ACCESSED != 0 && spec_leaf(ppn, flags) & FLAG_DIRTY != 0) by (bit_vector)
        requires
            ppn <= 0xfff_ffff_ffff,
            flags & !(FLAG_READ | FLAG_WRITE | FLAG_EXEC) == 0,
            flags != 0,
    ;
}

/// A 64-bit packed hardware page-table entry.
#[derive(Clone, Copy, Debug)]
pub struct Entry(u64);

/// The frame-number field of an entry's bits: bits 10 to 53.
pub open spec fn spec_entry_ppn(bits: u64) -> usize {
    ((bits >> 10) & 0xfff_ffff_ffff) as usize
}

/// The bits of a branch entry: a frame number and the valid bit alone.
pub open spec fn spec_branch(ppn: usize) -> u64 {
    ((ppn as u64) << 10) | FLAG_VALID
}

/// The bits of a leaf entry: a frame number, the given permissions, and
/// the valid, accessed and dirty bits preset.
pub open spec fn spec_leaf(ppn: usize, flags: u64) -> u64 {
    ((ppn as u64) << 10) | (FLAG_DIRTY | FLAG_ACCESSED | flags | FLAG_VALID)
}

impl Entry {
    /// The packed bits as a mathematical value.
    pub closed spec fn view(self) -> u64 {
        self.0
    }

    pub open spec fn spec_valid(self) -> bool {
        self@ & FLAG_VALID != 0
    }

    pub open spec fn spec_leaf_bit_set(self) -> bool {
        self@ & (FLAG_READ | FLAG_WRITE | FLAG_EXEC) != 0
    }

    /// A branch entry: valid, no permission bits, pointing at a child
    /// table's frame.
    pub fn new_branch(ppn: Ppn) -> (r: Self)
        ensures
            r@ == spec_branch(ppn@),
    {
        Self((ppn.get() as u64) << 10 | FLAG_VALID)
    }

    /// A leaf entry: valid, carrying the target frame and permissions,
    /// with the accessed and dirty bits preset.
    pub fn new_leaf(ppn: Ppn, flags: PageEntryFlag) -> (r: Self)
        ensures
            r@ == spec_leaf(ppn@, flags@),
    {
        Self((ppn.get() as u64) << 10 | (FLAG_DIRTY | FLAG_ACCESSED | flags.0 | FLAG_VALID))
    }

    /// The frame number stored in the entry: the three sub-fields (9, 9
    /// and 26 bits) of bits 10 to 53, recombined.
    pub fn ppn(self) -> (r: Ppn)
        ensures
            r@ == spec_entry_ppn(self@),
    {
        let b = self.0;
        let ppn0 = b >> 10 & 0x1ff;
        let ppn1 = b >> 19 & 0x1ff;
        let ppn2 = b >> 28 & 0x3ff_ffff;

        let r = ppn2 << 18 | ppn1 << 9 | ppn0;
        proof {
            assert(r == (b >> 10) & 0xfff_ffff_ffff) by (bit_vector)
                requires
                    ppn0 == b >> 10 & 0x1ff,
                    ppn1 == b >> 19 & 0x1ff,
                    ppn2 == b >> 28 & 0x3ff_ffff,
                    r == ppn2 << 18 | ppn1 << 9 | ppn0,
            ;
        }
        Ppn(r as usize)
    }

    pub fn is_valid(self) -> (r: bool)
        ensures
            r == self.spec_valid(),
    {
        self.0 & FLAG_VALID != 0
    }

    pub fn is_read(self) -> (r: bool)
        ensures
            r == (self@ & FLAG_READ != 0),
    {
        self.0 & FLAG_READ != 0
    }

    pub fn is_write(self) -> (r: bool)
        ensures
            r == (self@ & FLAG_WRITE != 0),
    {
        self.0 & FLAG_WRITE != 0
    }

    pub fn is_exec(self) -> (r: bool)
        ensures
            r == (self@ & FLAG_EXEC != 0),
    {
        self.0 & FLAG_EXEC != 0
    }

    /// A valid entry with any permission bit set terminates translation.
    pub fn is_leaf(self) -> (r: bool)
        ensures
            r == self.spec_leaf_bit_set(),
    {
        self.0 & (FLAG_READ | FLAG_WRITE | FLAG_EXEC) != 0
    }
}

/// One node of the radix tree: an array of exactly 512 entries, occupying
/// one page.
#[derive(Clone, Debug)]
pub struct PageTable {
    entries: Vec<Entry>,
}

impl PageTable {
    /// The entry sequence as raw bits.
    pub closed spec fn view(self) -> Seq<u64> {
        self.entries@.map_values(|e: Entry| e@)
    }

    /// A node holds exactly 512 entries.
    pub open spec fn wf(self) -> bool {
        self@.len() == 512
    }

    /// Read the entry at a 9-bit index.
    pub fn entry(&self, index: usize) -> (r: Entry)
        requires
            self.wf(),
            index < 512,
        ensures
            r@ == self@[index as int],
    {
        self.entries[index]
    }

    /// Overwrite the entry at a 9-bit index.
    pub fn set_entry(&mut self, index: usize, entry: Entry)
        requires
            old(self).wf(),
            index < 512,
        ensures
            final(self).wf(),
            final(self)@ == old(self)@.update(index as int, entry@),
    {
        self.entries.set(index, entry);
        proof {
            assert(final(self)@ =~= old(self)@.update(index as int, entry@));
        }
    }
}

impl Default for PageTable {
    /// A zero-initialized node: all 512 entries invalid.
    fn default() -> (r: Self)
        ensures
            r.wf(),
            forall|i: int| 0 <= i < 512 ==> r@[i] == 0u64,
    {
        let mut entries: Vec<Entry> = Vec::new();
        let mut i: usize = 0;
        while i < 512
            invariant
                i <= 512,
                entries@.len() == i,
                forall|j: int| 0 <= j < i ==> #[trigger] entries@[j]@ == 0u64,
            decreases 512 - i,
        {
            entries.push(Entry(0));
            i += 1;
        }
        Self { entries }
    }
}

} // verus!

//! The three-level page-table radix tree: walking and building the tree
//! of 512-entry nodes, installing one leaf translation per `map` call,
//! with child tables allocated on demand from a pluggable frame provider.

use vstd::prelude::*;

use crate::kalloc::AllocError;
use crate::kalloc::FrameSource;
use crate::vm::Entry;
use crate::vm::Page;
use crate::vm::PageEntryFlag;
use crate::vm::PageTable;
use crate::vm::PhysicalAddress;
use crate::vm::Ppn;
use crate::vm::VirtualAddress;
use crate::vm::lemma_branch_entry;
use crate::vm::lemma_leaf_entry;
use crate::vm::lemma_vpn_bounds;
use crate::vm::spec_addr_ppn;
use crate::vm::spec_bits_leaf;
use crate::vm::spec_bits_valid;
use crate::vm::spec_branch;
use crate::vm::spec_entry_ppn;
use crate::vm::spec_leaf;
use crate::vm::spec_vpn0;
use crate::vm::spec_vpn1;
use crate::vm::spec_vpn2;

verus! {

/// The index of `ppn` in a frame list; meaningful when the list holds it
/// and holds no frame twice.
spec fn spec_slot(frames: Seq<usize>, ppn: usize) -> int {
    choose|j: int| 0 <= j < frames.len() && frames[j] == ppn
}

/// Whether a frame list holds `ppn`.
spec fn spec_has(frames: Seq<usize>, ppn: usize) -> bool {
    exists|j: int| 0 <= j < frames.len() && #[trigger] frames[j] == ppn
}

/// Appending fresh frames to a distinct frame list moves no existing
/// frame's slot.
proof fn lemma_slot_stable(pre: Seq<usize>, post: Seq<usize>, ppn: usize)
    requires
        pre.is_prefix_of(post),
        forall|i: int, j: int| 0 <= i < j < post.len() ==> post[i] != post[j],
        spec_has(pre, ppn),
    ensures
        spec_has(post, ppn),
        spec_slot(post, ppn) == spec_slot(pre, ppn),
        0 <= spec_slot(pre, ppn) < pre.len(),
        pre[spec_slot(pre, ppn)] == ppn,
{
    let j = choose|j: int| 0 <= j < pre.len() && #[trigger] pre[j] == ppn;
    assert(post[j] == ppn);
    let s = spec_slot(pre, ppn);
    assert(pre[s] == ppn && 0 <= s < pre.len());
    let s2 = spec_slot(post, ppn);
    assert(post[s2] == ppn && 0 <= s2 < post.len());
    assert(post[s] == ppn);
    if s != s2 {
        assert(false);
    }
}

/// The page-table structure under construction: the root node, every
/// child node allocated so far, and the frame each node occupies. The
/// hardware's view of a node is its 512 packed entries; a branch entry
/// names its child node by the child's frame number.
pub struct PageTableTree {
    frames: Vec<usize>,
    nodes: Vec<PageTable>,
    levels: Ghost<Seq<int>>,
}

impl PageTableTree {
    /// Number of nodes in the tree, the root included.
    pub closed spec fn num_tables(self) -> nat {
        self.frames@.len()
    }

    /// The frame number of the root node, as handed to the hardware's
    /// translation control register.
    pub closed spec fn root_ppn_spec(self) -> usize {
        self.frames@[0]
    }

    /// Frame numbers occupied by the tree's nodes.
    pub closed spec fn used_ppns(self) -> Set<usize> {
        Set::new(|p: usize| spec_has(self.frames@, p))
    }

    /// Node `i` holds a valid entry at index `k`, at a level where valid
    /// entries must be branches.
    spec fn is_branch_slot(self, i: int, k: int) -> bool {
        &&& 0 <= i < self.frames@.len()
        &&& 0 <= k < 512
        &&& self.levels@[i] >= 1
        &&& spec_bits_valid(self.nodes@[i]@[k])
    }

    /// Shape of the store: one level tag and one frame per node, the
    /// root first and alone at level 2, every node 512 entries long,
    /// every frame distinct and encodable in 44 bits.
    spec fn inv_basic(self) -> bool {
        &&& self.nodes@.len() == self.frames@.len()
        &&& self.levels@.len() == self.frames@.len()
        &&& self.frames@.len() >= 1
        &&& self.levels@[0] == 2
        &&& forall|i: int| 0 <= i < self.frames@.len() ==> 0 <= #[trigger] self.levels@[i] <= 2
        &&& forall|i: int| 0 < i < self.frames@.len() ==> #[trigger] self.levels@[i] != 2
        &&& forall|i: int| 0 <= i < self.nodes@.len() ==> (#[trigger] self.nodes@[i]).wf()
        &&& forall|i: int|
            0 <= i < self.frames@.len() ==> #[trigger] self.frames@[i] <= 0xfff_ffff_ffff
        &&& forall|i: int, j: int|
            0 <= i < j < self.frames@.len() ==> self.frames@[i] != self.frames@[j]
    }

    /// Every valid entry above the leaf level is a branch, and its
    /// target frame is a node of the store, one level further down.
    spec fn inv_links(self) -> bool {
        forall|i: int, k: int|
            #[trigger] self.is_branch_slot(i, k) ==> {
                &&& !spec_bits_leaf(self.nodes@[i]@[k])
                &&& spec_has(self.frames@, spec_entry_ppn(self.nodes@[i]@[k]))
                &&& self.levels@[spec_slot(self.frames@, spec_entry_ppn(self.nodes@[i]@[k]))]
                    == self.levels@[i] - 1
            }
    }

    /// No two branch entries share a child, and no branch points back at
    /// the root: each node has exactly one place in the tree.
    spec fn inv_unique(self) -> bool {
        &&& forall|i: int, k: int, i2: int, k2: int|
            #[trigger] self.is_branch_slot(i, k) && #[trigger] self.is_branch_slot(i2, k2) && (i
                != i2 || k != k2) ==> spec_entry_ppn(self.nodes@[i]@[k]) != spec_entry_ppn(
                self.nodes@[i2]@[k2],
            )
        &&& forall|i: int, k: int|
            #[trigger] self.is_branch_slot(i, k) ==> spec_entry_ppn(self.nodes@[i]@[k])
                != self.frames@[0]
    }

    /// The tree's well-formedness invariant.
    pub closed spec fn wf(self) -> bool {
        self.inv_basic() && self.inv_links() && self.inv_unique()
    }

    /// The entry the hardware walker would come to rest on for address
    /// `v`: follow the branch named by each of the three 9-bit indices
    /// in turn; the result is the level-0 entry, if every step of the
    /// path is valid and that final entry is valid too.
    pub closed spec fn translation(self, v: usize) -> Option<u64> {
        let e2 = self.nodes@[0]@[spec_vpn2(v)];
        if !spec_bits_valid(e2) {
            None
        } else {
            let i1 = spec_slot(self.frames@, spec_entry_ppn(e2));
            let e1 = self.nodes@[i1]@[spec_vpn1(v)];
            if !spec_bits_valid(e1) {
                None
            } else {
                let i0 = spec_slot(self.frames@, spec_entry_ppn(e1));
                let e0 = self.nodes@[i0]@[spec_vpn0(v)];
                if spec_bits_valid(e0) {
                    Some(e0)
                } else {
                    None
                }
            }
        }
    }

    /// Child tables still to be allocated before a leaf for `v` can be
    /// written: two when the root entry on the path is empty, one when
    /// only the mid-level entry is, none when the path is complete.
    pub closed spec fn missing_tables(self, v: usize) -> nat {
        let e2 = self.nodes@[0]@[spec_vpn2(v)];
        if !spec_bits_valid(e2) {
            2
        } else {
            let i1 = spec_slot(self.frames@, spec_entry_ppn(e2));
            let e1 = self.nodes@[i1]@[spec_vpn1(v)];
            if !spec_bits_valid(e1) {
                1
            } else {
                0
            }
        }
    }

    /// Allocate the root node's frame and set up an empty tree: no
    /// translation is installed yet.
    pub fn new<A: FrameSource>(allocator: &mut A) -> (r: Result<PageTableTree, AllocError>)
        requires
            old(allocator).inv(),
        ensures
            final(allocator).inv(),
            r is Ok <==> old(allocator).avail() > 0,
            r is Err ==> *final(allocator) == *old(allocator),
            r matches Ok(t) ==> {
                &&& t.wf()
                &&& t.num_tables() == 1
                &&& old(allocator).may_provide().contains(t.root_ppn_spec())
                &&& final(allocator).may_provide().disjoint(t.used_ppns())
                &&& final(allocator).avail() == old(allocator).avail() - 1
                &&& forall|v: usize| #[trigger] t.translation(v) is None
            },
    {
        match allocator.alloc_frame() {
            None => Err(AllocError),
            Some(f) => {
                let mut frames: Vec<usize> = Vec::new();
                frames.push(f.get());
                let mut nodes: Vec<PageTable> = Vec::new();
                nodes.push(PageTable::default());
                let ghost lv: Seq<int> = seq![2int];
                let t = PageTableTree { frames, nodes, levels: Ghost(lv) };
                proof {
                    assert(!spec_bits_valid(0u64) && !spec_bits_leaf(0u64)) by (bit_vector);
                    assert forall|i: int, k: int| !t.is_branch_slot(i, k) by {
                        if 0 <= i < 1 && 0 <= k < 512 {
                            assert(t.nodes@[i]@[k] == 0u64);
                        }
                    }
                    assert forall|v: usize| #[trigger] t.translation(v) is None by {
                        lemma_vpn_bounds(v);
                        assert(t.nodes@[0]@[spec_vpn2(v)] == 0u64);
                    }
                    assert forall|p: usize|
                        final(allocator).may_provide().contains(p) implies !t.used_ppns().contains(
                        p,
                    ) by {
                        if spec_has(t.frames@, p) {
                            assert(t.frames@[0] == f@);
                        }
                    }
                }
                Ok(t)
            },
        }
    }

    /// How many nodes the tree holds, the root included.
    pub fn table_count(&self) -> (r: usize)
        ensures
            r == self.num_tables(),
    {
        self.frames.len()
    }

    /// The root node's frame number, for the translation control
    /// register.
    pub fn root_ppn(&self) -> (r: Ppn)
        requires
            self.wf(),
        ensures
            r@ == self.root_ppn_spec(),
    {
        Ppn::new(self.frames[0])
    }

    /// Find the node stored in the frame `ppn` names.
    fn find_node(&self, ppn: usize) -> (r: usize)
        requires
            self.wf(),
            spec_has(self.frames@, ppn),
        ensures
            r < self.frames@.len(),
            self.frames@[r as int] == ppn,
            r as int == spec_slot(self.frames@, ppn),
    {
        let n = self.frames.len();
        let mut i: usize = 0;
        while i < n
            invariant
                self.wf(),
                n == self.frames@.len(),
                i <= n,
                forall|j: int| 0 <= j < i ==> self.frames@[j] != ppn,
            decreases n - i,
        {
            if self.frames[i] == ppn {
                proof {
                    let s = spec_slot(self.frames@, ppn);
                    assert(self.frames@[s] == ppn && 0 <= s < self.frames@.len());
                }
                return i;
            }
            i += 1;
        }
        proof {
            let j = choose|j: int| 0 <= j < self.frames@.len() && #[trigger] self.frames@[j] == ppn;
            assert(false);
        }
        0
    }

    /// Read one entry of one node.
    fn read_entry(&self, t: usize, k: usize) -> (r: Entry)
        requires
            self.wf(),
            t < self.nodes@.len(),
            k < 512,
        ensures
            r@ == self.nodes@[t as int]@[k as int],
    {
        self.nodes[t].entry(k)
    }

    /// Overwrite one entry of one node, leaving every other node and
    /// entry as it was.
    fn set_node_entry(&mut self, t: usize, k: usize, e: Entry)
        requires
            old(self).inv_basic(),
            t < old(self).nodes@.len(),
            k < 512,
        ensures
            final(self).frames@ == old(self).frames@,
            final(self).levels@ == old(self).levels@,
            final(self).nodes@.len() == old(self).nodes@.len(),
            forall|i: int|
                0 <= i < old(self).nodes@.len() && i != t ==> final(self).nodes@[i] == old(self).nodes@[i],
            final(self).nodes@[t as int]@ == old(self).nodes@[t as int]@.update(k as int, e@),
    {
        let node = &mut self.nodes[t];
        node.set_entry(k, e);
    }

    /// Append a fresh, zero-initialized node occupying the given frame.
    /// The new node is referenced by no entry, so no translation moves.
    fn push_node(&mut self, frame: Ppn, Ghost(level): Ghost<int>)
        requires
            old(self).wf(),
            0 <= level <= 1,
            !spec_has(old(self).frames@, frame@),
            frame@ <= 0xfff_ffff_ffff,
        ensures
            final(self).wf(),
            final(self).frames@ == old(self).frames@.push(frame@),
            final(self).levels@ == old(self).levels@.push(level),
            final(self).nodes@.len() == old(self).nodes@.len() + 1,
            forall|i: int|
                0 <= i < old(self).nodes@.len() ==> final(self).nodes@[i] == old(self).nodes@[i],
            forall|j: int|
                0 <= j < 512 ==> #[trigger] final(self).nodes@[old(self).nodes@.len() as int]@[j]
                    == 0u64,
            forall|v: usize| #[trigger] final(self).translation(v) == old(self).translation(v),
            final(self).used_ppns() == old(self).used_ppns().insert(frame@),
    {
        let ghost pre = *old(self);
        self.frames.push(frame.get());
        self.nodes.push(PageTable::default());
        proof {
            self.levels@ = self.levels@.push(level);
            let post = *self;
            let n = pre.frames@.len() as int;
            assert(!spec_bits_valid(0u64) && !spec_bits_leaf(0u64)) by (bit_vector);

            // frames stay distinct: the new frame is fresh
            assert forall|i: int| 0 <= i < n implies pre.frames@[i] != frame@ by {
                if pre.frames@[i] == frame@ {
                    assert(spec_has(pre.frames@, frame@));
                }
            }
            assert(post.inv_basic());

            // a branch slot of the new state is one of the old state
            assert forall|i: int, k: int| #[trigger]
                post.is_branch_slot(i, k) implies i < n && pre.is_branch_slot(i, k) by {
                if i == n {
                    assert(post.nodes@[i]@[k] == 0u64);
                }
            }
            assert forall|i: int, k: int| #[trigger] post.is_branch_slot(i, k) implies {
                &&& !spec_bits_leaf(post.nodes@[i]@[k])
                &&& spec_has(post.frames@, spec_entry_ppn(post.nodes@[i]@[k]))
                &&& post.levels@[spec_slot(post.frames@, spec_entry_ppn(post.nodes@[i]@[k]))]
                    == post.levels@[i] - 1
            } by {
                let p = spec_entry_ppn(pre.nodes@[i]@[k]);
                lemma_slot_stable(pre.frames@, post.frames@, p);
            }
            assert(post.inv_links());
            assert(post.inv_unique());

            // no translation moves: every step of every walk reads the
            // same entries as before
            assert forall|v: usize| #[trigger] post.translation(v) == pre.translation(v) by {
                lemma_vpn_bounds(v);
                let e2 = pre.nodes@[0]@[spec_vpn2(v)];
                assert(post.nodes@[0] == pre.nodes@[0]);
                if spec_bits_valid(e2) {
                    assert(pre.is_branch_slot(0, spec_vpn2(v)));
                    lemma_slot_stable(pre.frames@, post.frames@, spec_entry_ppn(e2));
                    let i1 = spec_slot(pre.frames@, spec_entry_ppn(e2));
                    assert(post.nodes@[i1] == pre.nodes@[i1]);
                    let e1 = pre.nodes@[i1]@[spec_vpn1(v)];
                    if spec_bits_valid(e1) {
                        assert(pre.is_branch_slot(i1, spec_vpn1(v)));
                        lemma_slot_stable(pre.frames@, post.frames@, spec_entry_ppn(e1));
                        let i0 = spec_slot(pre.frames@, spec_entry_ppn(e1));
                        assert(post.nodes@[i0] == pre.nodes@[i0]);
                    }
                }
            }
            assert(post.used_ppns() =~= pre.used_ppns().insert(frame@)) by {
                assert forall|p: usize| #[trigger]
                    post.used_ppns().contains(p) implies pre.used_ppns().insert(frame@).contains(
                    p,
                ) by {
                    let j = choose|j: int|
                        0 <= j < post.frames@.len() && #[trigger] post.frames@[j] == p;
                    if j < n {
                        assert(pre.frames@[j] == p);
                    }
                }
                assert forall|p: usize| pre.used_ppns().insert(frame@).contains(
                    p,
                ) implies #[trigger] post.used_ppns().contains(p) by {
                    if p == frame@ {
                        assert(post.frames@[n] == p);
                    } else {
                        let j = choose|j: int|
                            0 <= j < pre.frames@.len() && #[trigger] pre.frames@[j] == p;
                        assert(post.frames@[j] == p);
                    }
                }
            }
        }
    }

    /// Make sure the entry `k` of node `parent` names a child table:
    /// when it is already valid, return the child it names; when it is
    /// empty, allocate a fresh frame, append a zeroed child node there,
    /// and install a branch entry pointing at it. Installing a branch to
    /// an empty child moves no translation.
    fn ensure_child<A: FrameSource>(&mut self, allocator: &mut A, parent: usize, k: usize) -> (r:
        Result<usize, AllocError>)
        requires
            old(self).wf(),
            old(allocator).inv(),
            old(allocator).may_provide().disjoint(old(self).used_ppns()),
            parent < old(self).frames@.len(),
            old(self).levels@[parent as int] >= 1,
            k < 512,
        ensures
            final(self).wf(),
            final(allocator).inv(),
            final(allocator).may_provide().disjoint(final(self).used_ppns()),
            old(self).frames@.is_prefix_of(final(self).frames@),
            old(self).levels@.is_prefix_of(final(self).levels@),
            final(self).nodes@.len() == final(self).frames@.len(),
            forall|i: int|
                0 <= i < old(self).nodes@.len() && i != parent ==> final(self).nodes@[i] == old(self).nodes@[i],
            forall|j: int|
                0 <= j < 512 && j != k ==> #[trigger] final(self).nodes@[parent as int]@[j] == old(self).nodes@[parent as int]@[j],
            forall|v: usize| #[trigger] final(self).translation(v) == old(self).translation(v),
            spec_bits_valid(old(self).nodes@[parent as int]@[k as int]) ==> r == Ok::<
                usize,
                AllocError,
            >(
                spec_slot(
                    old(self).frames@,
                    spec_entry_ppn(old(self).nodes@[parent as int]@[k as int]),
                ) as usize,
            ) && *final(self) == *old(self) && *final(allocator) == *old(allocator),
            !spec_bits_valid(old(self).nodes@[parent as int]@[k as int]) && old(allocator).avail()
                == 0 ==> r is Err && *final(self) == *old(self) && *final(allocator) == *old(
                allocator,
            ),
            !spec_bits_valid(old(self).nodes@[parent as int]@[k as int]) && old(allocator).avail()
                > 0 ==> {
                &&& r matches Ok(c) && c as int == old(self).frames@.len()
                &&& final(self).frames@.len() == old(self).frames@.len() + 1
                &&& final(allocator).avail() == old(allocator).avail() - 1
                &&& forall|j: int|
                    0 <= j < 512 ==> #[trigger] final(self).nodes@[old(self).frames@.len() as int]@[j] == 0u64
            },
            r matches Ok(c) ==> {
                &&& (c as int) < final(self).frames@.len()
                &&& final(self).levels@[c as int] == old(self).levels@[parent as int] - 1
                &&& spec_bits_valid(final(self).nodes@[parent as int]@[k as int])
                &&& !spec_bits_leaf(final(self).nodes@[parent as int]@[k as int])
                &&& spec_entry_ppn(final(self).nodes@[parent as int]@[k as int]) == final(self).frames@[c as int]
                &&& spec_slot(final(self).frames@, final(self).frames@[c as int]) == c as int
            },
    {
        let ghost pre = *old(self);
        let e = self.read_entry(parent, k);
        if e.is_valid() {
            proof {
                assert(self.is_branch_slot(parent as int, k as int));
            }
            let c = self.find_node(e.ppn().get());
            proof {
                let s = spec_slot(pre.frames@, spec_entry_ppn(pre.nodes@[parent as int]@[k as int]));
                assert(pre.levels@[s] == pre.levels@[parent as int] - 1);
            }
            Ok(c)
        } else {
            match allocator.alloc_frame() {
                None => Err(AllocError),
                Some(f) => {
                    proof {
                        if spec_has(self.frames@, f@) {
                            assert(self.used_ppns().contains(f@));
                        }
                    }
                    let ghost child_level = self.levels@[parent as int] - 1;
                    self.push_node(f, Ghost(child_level));
                    let ghost mid = *self;
                    let c = self.frames.len() - 1;
                    let b = Entry::new_branch(Ppn::new(f.get()));
                    self.set_node_entry(parent, k, b);
                    proof {
                        let post = *self;
                        let n = pre.frames@.len() as int;
                        let kk = k as int;
                        let pp = parent as int;
                        lemma_branch_entry(f@);
                        assert(!spec_bits_valid(0u64) && !spec_bits_leaf(0u64)) by (bit_vector);
                        assert(post.nodes@[pp]@[kk] == spec_branch(f@));
                        assert(post.frames@[n] == f@);
                        assert(spec_slot(post.frames@, f@) == n) by {
                            let s = spec_slot(post.frames@, f@);
                            assert(post.frames@[n] == f@);
                            assert(post.frames@[s] == f@ && 0 <= s < post.frames@.len());
                        }

                        // every branch slot of mid is one of pre, aimed
                        // away from the fresh frame
                        assert forall|i: int, k2: int| #[trigger]
                            mid.is_branch_slot(i, k2) implies spec_entry_ppn(mid.nodes@[i]@[k2])
                            != f@ && spec_entry_ppn(mid.nodes@[i]@[k2]) != post.frames@[0] by {
                            if i == n {
                                assert(mid.nodes@[i]@[k2] == 0u64);
                            } else {
                                assert(pre.is_branch_slot(i, k2));
                                let p = spec_entry_ppn(pre.nodes@[i]@[k2]);
                                assert(spec_has(pre.frames@, p));
                                if p == f@ {
                                    assert(pre.used_ppns().contains(f@));
                                }
                            }
                        }

                        // well-formedness of the final state
                        assert(post.inv_basic());
                        assert forall|i: int, k2: int| #[trigger]
                            post.is_branch_slot(i, k2) && (i != pp || k2 != kk) implies
                            mid.is_branch_slot(i, k2) && post.nodes@[i]@[k2]
                            == mid.nodes@[i]@[k2] by {
                            if i == pp {
                                assert(post.nodes@[i]@[k2] == mid.nodes@[i]@[k2]);
                            }
                        }
                        assert forall|i: int, k2: int| #[trigger] post.is_branch_slot(i, k2) implies {
                            &&& !spec_bits_leaf(post.nodes@[i]@[k2])
                            &&& spec_has(post.frames@, spec_entry_ppn(post.nodes@[i]@[k2]))
                            &&& post.levels@[spec_slot(
                                post.frames@,
                                spec_entry_ppn(post.nodes@[i]@[k2]),
                            )] == post.levels@[i] - 1
                        } by {
                            if i == pp && k2 == kk {
                                assert(spec_entry_ppn(post.nodes@[i]@[k2]) == f@);
                                assert(post.levels@[n] == child_level);
                            } else {
                                assert(mid.is_branch_slot(i, k2));
                            }
                        }
                        assert(post.inv_links());
                        assert forall|i: int, k2: int, i2: int, k3: int| #[trigger]
                            post.is_branch_slot(i, k2) && #[trigger] post.is_branch_slot(i2, k3)
                            && (i != i2 || k2 != k3) implies spec_entry_ppn(post.nodes@[i]@[k2])
                            != spec_entry_ppn(post.nodes@[i2]@[k3]) by {
                            if i == pp && k2 == kk {
                                assert(mid.is_branch_slot(i2, k3));
                            } else if i2 == pp && k3 == kk {
                                assert(mid.is_branch_slot(i, k2));
                            } else {
                                assert(mid.is_branch_slot(i, k2) && mid.is_branch_slot(i2, k3));
                            }
                        }
                        assert(post.inv_unique());

                        // installing a branch to an empty child moves no
                        // translation
                        assert forall|v: usize| #[trigger] post.translation(v) == mid.translation(
                            v,
                        ) by {
                            lemma_vpn_bounds(v);
                            if pp == 0 {
                                // parent is the root
                                if spec_vpn2(v) == kk {
                                    assert(post.nodes@[0]@[spec_vpn2(v)] == spec_branch(f@));
                                    assert(spec_slot(post.frames@, f@) == n);
                                    assert(post.nodes@[n]@[spec_vpn1(v)] == 0u64);
                                    assert(!spec_bits_valid(mid.nodes@[0]@[spec_vpn2(v)]));
                                } else {
                                    let e2 = mid.nodes@[0]@[spec_vpn2(v)];
                                    assert(post.nodes@[0]@[spec_vpn2(v)] == e2);
                                    if spec_bits_valid(e2) {
                                        assert(mid.is_branch_slot(0, spec_vpn2(v)));
                                        let i1 = spec_slot(mid.frames@, spec_entry_ppn(e2));
                                        assert(mid.levels@[i1] == 1);
                                        assert(i1 != pp);
                                        assert(post.nodes@[i1] == mid.nodes@[i1]);
                                        let e1 = mid.nodes@[i1]@[spec_vpn1(v)];
                                        if spec_bits_valid(e1) {
                                            assert(mid.is_branch_slot(i1, spec_vpn1(v)));
                                            let i0 = spec_slot(mid.frames@, spec_entry_ppn(e1));
                                            assert(mid.levels@[i0] == 0);
                                            assert(i0 != pp);
                                            assert(post.nodes@[i0] == mid.nodes@[i0]);
                                        }
                                    }
                                }
                            } else {
                                // parent is a mid-level node
                                assert(post.nodes@[0] == mid.nodes@[0]);
                                let e2 = mid.nodes@[0]@[spec_vpn2(v)];
                                if spec_bits_valid(e2) {
                                    assert(mid.is_branch_slot(0, spec_vpn2(v)));
                                    let i1 = spec_slot(mid.frames@, spec_entry_ppn(e2));
                                    assert(mid.levels@[i1] == 1);
                                    if i1 == pp {
                                        if spec_vpn1(v) == kk {
                                            assert(post.nodes@[pp]@[spec_vpn1(v)] == spec_branch(
                                                f@,
                                            ));
                                            assert(spec_slot(post.frames@, f@) == n);
                                            assert(post.nodes@[n]@[spec_vpn0(v)] == 0u64);
                                            assert(!spec_bits_valid(mid.nodes@[pp]@[spec_vpn1(v)]));
                                        } else {
                                            let e1 = mid.nodes@[pp]@[spec_vpn1(v)];
                                            assert(post.nodes@[pp]@[spec_vpn1(v)] == e1);
                                            if spec_bits_valid(e1) {
                                                assert(mid.is_branch_slot(pp, spec_vpn1(v)));
                                                let i0 = spec_slot(
                                                    mid.frames@,
                                                    spec_entry_ppn(e1),
                                                );
                                                assert(mid.levels@[i0] == 0);
                                                assert(i0 != pp);
                                                assert(post.nodes@[i0] == mid.nodes@[i0]);
                                            }
                                        }
                                    } else {
                                        assert(post.nodes@[i1] == mid.nodes@[i1]);
                                        let e1 = mid.nodes@[i1]@[spec_vpn1(v)];
                                        if spec_bits_valid(e1) {
                                            assert(mid.is_branch_slot(i1, spec_vpn1(v)));
                                            let i0 = spec_slot(mid.frames@, spec_entry_ppn(e1));
                                            assert(mid.levels@[i0] == 0);
                                            assert(i0 != pp);
                                            assert(post.nodes@[i0] == mid.nodes@[i0]);
                                        }
                                    }
                                }
                            }
                        }

                        // the allocator can no longer provide the frame
                        // the tree now occupies
                        assert forall|p: usize| final(allocator).may_provide().contains(
                            p,
                        ) implies !post.used_ppns().contains(p) by {
                            assert(old(allocator).may_provide().contains(p));
                            if post.used_ppns().contains(p) {
                                assert(mid.used_ppns() == pre.used_ppns().insert(f@));
                                assert(pre.used_ppns().contains(p) || p == f@);
                            }
                        }
                    }
                    Ok(c)
                },
            }
        }
    }

    /// Install the translation `vaddr -> paddr` with the given
    /// permissions, allocating the missing child tables on the way down.
    ///
    /// The call succeeds exactly when the provider has a frame for every
    /// missing table; it then installs a leaf carrying `paddr`'s frame
    /// number and the permissions, overwriting without protest any leaf
    /// already present for `vaddr`. No other page's translation moves.
    /// On exhaustion the walk stops where it stands: branch tables
    /// already installed at shallower levels are kept, no leaf is
    /// written, and no translation has changed.
    pub fn map<A: FrameSource>(
        &mut self,
        allocator: &mut A,
        vaddr: Page<VirtualAddress>,
        paddr: Page<PhysicalAddress>,
        flags: PageEntryFlag,
    ) -> (r: Result<(), AllocError>)
        requires
            old(self).wf(),
            old(allocator).inv(),
            old(allocator).may_provide().disjoint(old(self).used_ppns()),
            flags.is_leaf_perm(),
        ensures
            final(self).wf(),
            final(allocator).inv(),
            final(allocator).may_provide().disjoint(final(self).used_ppns()),
            final(self).root_ppn_spec() == old(self).root_ppn_spec(),
            r is Ok <==> old(allocator).avail() >= old(self).missing_tables(vaddr@),
            forall|v2: usize|
                !crate::vm::same_page(v2, vaddr@) ==> #[trigger] final(self).translation(v2)
                    == old(self).translation(v2),
            r is Ok ==> {
                &&& final(self).translation(vaddr@) == Some(
                    spec_leaf(spec_addr_ppn(paddr@), flags@),
                )
                &&& final(allocator).avail() == old(allocator).avail() - old(self).missing_tables(
                    vaddr@,
                )
                &&& final(self).num_tables() == old(self).num_tables() + old(self).missing_tables(
                    vaddr@,
                )
            },
            r is Err ==> {
                &&& final(self).translation(vaddr@) == old(self).translation(vaddr@)
                &&& final(allocator).avail() == 0
                &&& final(self).num_tables() == old(self).num_tables() + old(allocator).avail()
            },
    {
        proof {
            lemma_vpn_bounds(vaddr@);
        }
        let ghost s0 = *self;
        let ghost a0 = *old(allocator);
        let vpn = vaddr.address().vpn();

        let r1 = self.ensure_child(allocator, 0, vpn[2]);
        let t1 = match r1 {
            Err(e) => {
                return Err(e);
            },
            Ok(t1) => t1,
        };
        let ghost s1 = *self;

        let r2 = self.ensure_child(allocator, t1, vpn[1]);
        let t0 = match r2 {
            Err(e) => {
                proof {
                    // the path's mid-level entry was still missing and
                    // the provider is drained
                    assert(!spec_bits_valid(s1.nodes@[t1 as int]@[spec_vpn1(vaddr@)]));
                    if spec_bits_valid(s0.nodes@[0]@[spec_vpn2(vaddr@)]) {
                        assert(s1 == s0);
                        assert(s0.missing_tables(vaddr@) == 1);
                    } else {
                        assert(s0.missing_tables(vaddr@) == 2);
                    }
                }
                return Err(e);
            },
            Ok(t0) => t0,
        };
        let ghost s2 = *self;

        let leaf = Entry::new_leaf(paddr.address().ppn(), flags);
        self.set_node_entry(t0, vpn[0], leaf);

        proof {
            let post = *self;
            let v = vaddr@;
            let tt1 = t1 as int;
            let tt0 = t0 as int;
            crate::vm::lemma_addr_ppn_bound(paddr@);
            lemma_leaf_entry(spec_addr_ppn(paddr@), flags@);

            // the path of `vaddr` as it stands before the leaf write
            assert(s2.levels@[tt1] == 1 && s2.levels@[tt0] == 0);
            assert(spec_bits_valid(s2.nodes@[0]@[spec_vpn2(v)]));
            assert(spec_entry_ppn(s2.nodes@[0]@[spec_vpn2(v)]) == s2.frames@[tt1]) by {
                assert(s1.nodes@[0] == s2.nodes@[0] || tt1 == 0);
                assert(tt1 != 0);
            }
            assert(spec_slot(s2.frames@, s2.frames@[tt1]) == tt1) by {
                let s = spec_slot(s2.frames@, s2.frames@[tt1]);
                assert(s2.frames@[s] == s2.frames@[tt1] && 0 <= s < s2.frames@.len());
            }
            assert(spec_bits_valid(s2.nodes@[tt1]@[spec_vpn1(v)]));
            assert(spec_entry_ppn(s2.nodes@[tt1]@[spec_vpn1(v)]) == s2.frames@[tt0]);
            assert(spec_slot(s2.frames@, s2.frames@[tt0]) == tt0) by {
                let s = spec_slot(s2.frames@, s2.frames@[tt0]);
                assert(s2.frames@[s] == s2.frames@[tt0] && 0 <= s < s2.frames@.len());
            }

            // well-formedness: the overwritten slot sits at level 0,
            // where no entry is a branch
            assert(post.inv_basic());
            assert forall|i: int, k2: int| #[trigger]
                post.is_branch_slot(i, k2) implies s2.is_branch_slot(i, k2) && post.nodes@[i]@[k2]
                == s2.nodes@[i]@[k2] by {
                if i == tt0 {
                    if k2 == spec_vpn0(v) {
                        assert(post.levels@[i] == 0);
                    } else {
                        assert(post.nodes@[i]@[k2] == s2.nodes@[i]@[k2]);
                    }
                }
            }
            assert(post.inv_links());
            assert(post.inv_unique());

            // the leaf now stands at the end of `vaddr`'s path
            assert(post.nodes@[0] == s2.nodes@[0]);
            assert(post.nodes@[tt1] == s2.nodes@[tt1]);
            assert(post.nodes@[tt0]@[spec_vpn0(v)] == spec_leaf(spec_addr_ppn(paddr@), flags@));
            assert(post.translation(v) == Some(spec_leaf(spec_addr_ppn(paddr@), flags@)));

            // no other page's translation moves
            assert forall|v2: usize|
                !crate::vm::same_page(v2, v) implies #[trigger] post.translation(v2)
                == s2.translation(v2) by {
                lemma_vpn_bounds(v2);
                let e2 = s2.nodes@[0]@[spec_vpn2(v2)];
                if spec_bits_valid(e2) {
                    assert(s2.is_branch_slot(0, spec_vpn2(v2)));
                    let i1 = spec_slot(s2.frames@, spec_entry_ppn(e2));
                    assert(s2.levels@[i1] == 1);
                    assert(i1 != tt0);
                    assert(post.nodes@[i1] == s2.nodes@[i1]);
                    let e1 = s2.nodes@[i1]@[spec_vpn1(v2)];
                    if spec_bits_valid(e1) {
                        assert(s2.is_branch_slot(i1, spec_vpn1(v2)));
                        let i0 = spec_slot(s2.frames@, spec_entry_ppn(e1));
                        assert(s2.levels@[i0] == 0);
                        if i0 == tt0 {
                            if spec_vpn0(v2) == spec_vpn0(v) {
                                // two complete paths ending on the same
                                // slot of the same node are one path
                                assert(spec_entry_ppn(s2.nodes@[i1]@[spec_vpn1(v2)])
                                    == spec_entry_ppn(s2.nodes@[tt1]@[spec_vpn1(v)]));
                                assert(s2.is_branch_slot(tt1, spec_vpn1(v)));
                                assert(i1 == tt1 && spec_vpn1(v2) == spec_vpn1(v));
                                assert(spec_entry_ppn(s2.nodes@[0]@[spec_vpn2(v2)])
                                    == spec_entry_ppn(s2.nodes@[0]@[spec_vpn2(v)]));
                                assert(s2.is_branch_slot(0, spec_vpn2(v)));
                                assert(spec_vpn2(v2) == spec_vpn2(v));
                                assert(false);
                            } else {
                                assert(post.nodes@[i0]@[spec_vpn0(v2)]
                                    == s2.nodes@[i0]@[spec_vpn0(v2)]);
                            }
                        } else {
                            assert(post.nodes@[i0] == s2.nodes@[i0]);
                        }
                    }
                }
            }

            // accounting: exactly the missing tables were allocated
            if spec_bits_valid(s0.nodes@[0]@[spec_vpn2(v)]) {
                assert(s1 == s0);
                if spec_bits_valid(s1.nodes@[tt1]@[spec_vpn1(v)]) {
                    assert(s0.missing_tables(v) == 0);
                } else {
                    assert(s0.missing_tables(v) == 1);
                }
            } else {
                assert(s0.missing_tables(v) == 2);
                assert(!spec_bits_valid(s1.nodes@[tt1]@[spec_vpn1(v)])) by {
                    assert(tt1 == s0.frames@.len());
                    assert(s1.nodes@[tt1]@[spec_vpn1(v)] == 0u64);
                    assert(!spec_bits_valid(0u64)) by (bit_vector);
                }
            }
        }
        Ok(())
    }

    /// At most two child tables can ever be missing below the root.
    pub proof fn lemma_missing_bound(self, v: usize)
        ensures
            self.missing_tables(v) <= 2,
    {
    }

    /// The translation `map` installs walks back as a valid leaf whose
    /// decoded frame number is the target's and whose permission bits
    /// are exactly those requested.
    pub proof fn lemma_installed_leaf_decodes(self, v: usize, paddr: usize, flags: u64)
        requires
            flags & !(crate::vm::FLAG_READ | crate::vm::FLAG_WRITE | crate::vm::FLAG_EXEC) == 0,
            flags != 0,
            self.translation(v) == Some(spec_leaf(spec_addr_ppn(paddr), flags)),
        ensures
            self.translation(v) matches Some(e) ==> {
                &&& spec_bits_valid(e)
                &&& spec_bits_leaf(e)
                &&& spec_entry_ppn(e) == spec_addr_ppn(paddr)
                &&& e & crate::vm::FLAG_READ == flags & crate::vm::FLAG_READ
                &&& e & crate::vm::FLAG_WRITE == flags & crate::vm::FLAG_WRITE
                &&& e & crate::vm::FLAG_EXEC == flags & crate::vm::FLAG_EXEC
            },
    {
        crate::vm::lemma_addr_ppn_bound(paddr);
        lemma_leaf_entry(spec_addr_ppn(paddr), flags);
    }

    /// Walk the tree for `vaddr` exactly as the hardware would and
    /// return the level-0 entry its path ends on, if the path is
    /// complete and that entry is valid.
    pub fn lookup(&self, vaddr: Page<VirtualAddress>) -> (r: Option<Entry>)
        requires
            self.wf(),
        ensures
            r is Some <==> self.translation(vaddr@) is Some,
            r matches Some(e) ==> self.translation(vaddr@) == Some(e@),
    {
        proof {
            lemma_vpn_bounds(vaddr@);
        }
        let vpn = vaddr.address().vpn();

        let e2 = self.read_entry(0, vpn[2]);
        if !e2.is_valid() {
            return None;
        }
        proof {
            assert(self.is_branch_slot(0, spec_vpn2(vaddr@)));
        }
        let t1 = self.find_node(e2.ppn().get());

        let e1 = self.read_entry(t1, vpn[1]);
        if !e1.is_valid() {
            return None;
        }
        proof {
            assert(self.is_branch_slot(t1 as int, spec_vpn1(vaddr@)));
        }
        let t0 = self.find_node(e1.ppn().get());

        let e0 = self.read_entry(t0, vpn[0]);
        if e0.is_valid() {
            Some(e0)
        } else {
            None
        }
    }
}

} // verus!

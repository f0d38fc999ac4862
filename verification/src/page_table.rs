//! Page table entries and their flags.
use vstd::prelude::*;
use crate::address::{PhysPageNum, VirtPageNum, ppn_limit, vpn_index, vpn_limit};
use crate::frame_allocator::{
    FrameAllocator, FrameAllocatorModel, FrameTracker, frame_alloc, lemma_alloc_never_repeats_one, lemma_after_allocs_unfold,
};

verus! {

/// The flag bits of a page table entry.
#[derive(Clone, Copy, PartialEq, Eq, Structural)]
pub struct PageTableEntryFlags(pub u8);

#[allow(non_snake_case)]
impl PageTableEntryFlags {
    /// The flag that marks an entry valid.
    pub fn V() -> (r: Self)
        ensures
            r.0 == 1,
    {
        PageTableEntryFlags(1)
    }

    /// The flag that marks an entry readable.
    pub fn R() -> (r: Self)
        ensures
            r.0 == 2,
    {
        PageTableEntryFlags(2)
    }

    /// The flag that marks an entry writable.
    pub fn W() -> (r: Self)
        ensures
            r.0 == 4,
    {
        PageTableEntryFlags(4)
    }

    /// The flag that marks an entry executable.
    pub fn X() -> (r: Self)
        ensures
            r.0 == 8,
    {
        PageTableEntryFlags(8)
    }

    /// The flag that marks an entry accessible from user mode.
    pub fn U() -> (r: Self)
        ensures
            r.0 == 16,
    {
        PageTableEntryFlags(16)
    }

    /// The flag that marks an entry global.
    pub fn G() -> (r: Self)
        ensures
            r.0 == 32,
    {
        PageTableEntryFlags(32)
    }

    /// The flag that marks an entry accessed.
    pub fn A() -> (r: Self)
        ensures
            r.0 == 64,
    {
        PageTableEntryFlags(64)
    }

    /// The flag that marks an entry dirty.
    pub fn D() -> (r: Self)
        ensures
            r.0 == 128,
    {
        PageTableEntryFlags(128)
    }
}

impl core::ops::BitOr for PageTableEntryFlags {
    type Output = Self;

    fn bitor(self, rhs: Self) -> (r: Self) {
        PageTableEntryFlags(self.0 | rhs.0)
    }
}

impl vstd::std_specs::ops::BitOrSpecImpl for PageTableEntryFlags {
    open spec fn obeys_bitor_spec() -> bool {
        true
    }

    open spec fn bitor_req(self, rhs: Self) -> bool {
        true
    }

    open spec fn bitor_spec(self, rhs: Self) -> Self {
        PageTableEntryFlags(self.0 | rhs.0)
    }
}

/// One entry of a page table: a physical page number above ten flag bits.
#[derive(Clone, Copy, PartialEq, Eq, Structural)]
pub struct PageTableEntry {
    pub bits: usize,
}

/// Whether a page number survives being stored in an entry, that is, it is a
/// valid page number and shifting it past the flag bits loses nothing.
pub open spec fn ppn_fits_entry(ppn: usize) -> bool {
    ppn < ppn_limit() && ppn * 1024 <= usize::MAX
}

impl PageTableEntry {
    /// The page number that the entry holds.
    pub open spec fn spec_ppn(self) -> usize {
        self.bits >> 10usize
    }

    /// The low eight flag bits of the entry.
    pub open spec fn spec_flags(self) -> u8 {
        (self.bits & 0xffusize) as u8
    }

    /// Whether the valid bit is set.
    pub open spec fn spec_valid(self) -> bool {
        self.bits & 1usize != 0
    }

    /// An entry that points to `ppn` with the given flags.
    pub fn new(ppn: PhysPageNum, flags: PageTableEntryFlags) -> (r: Self)
        ensures
            r == PageTableEntry::new_spec(ppn, flags.0),
            ppn_fits_entry(ppn.0) ==> r.spec_ppn() == ppn.0 && r.spec_flags() == flags.0
                && r.spec_valid() == (flags.0 & 1 != 0),
    {
        let r = PageTableEntry { bits: ppn.0 << 10 | flags.0 as usize };
        proof {
            if ppn_fits_entry(ppn.0) {
                lemma_entry_fields(ppn.0, flags.0);
            }
        }
        r
    }

    /// The entry that `new` builds.
    pub open spec fn new_spec(ppn: PhysPageNum, flags: u8) -> PageTableEntry {
        PageTableEntry { bits: (ppn.0 << 10usize) | (flags as usize) }
    }

    /// Whether the valid bit is set.
    pub fn is_valid(&self) -> (r: bool)
        ensures
            r == self.spec_valid(),
    {
        self.bits & 1 != 0
    }

    /// The page number that the entry points to; it must be a valid page
    /// number.
    pub fn ppn(&self) -> (r: PhysPageNum)
        requires
            self.spec_ppn() < ppn_limit(),
        ensures
            r.0 == self.spec_ppn(),
    {
        PhysPageNum::new(self.bits >> 10)
    }
}

/// An entry built from a page number that fits gives back that page number,
/// its flags, and is valid exactly when the valid flag was given.
pub proof fn lemma_entry_fields(ppn: usize, flags: u8)
    requires
        ppn_fits_entry(ppn),
    ensures
        ({
            let e = PageTableEntry { bits: (ppn << 10usize) | (flags as usize) };
            &&& e.spec_ppn() == ppn
            &&& e.spec_flags() == flags
            &&& e.spec_valid() == (flags & 1 != 0)
        }),
{
    vstd::arithmetic::power2::lemma2_to64();
    vstd::bits::lemma_usize_shl_is_mul(ppn, 10);
    vstd::bits::lemma_usize_shr_is_div(ppn << 10usize, 10);
    let s = ppn << 10usize;
    let f = flags as usize;
    assert(s >> 10usize == ppn);
    assert(s >> 10usize == ppn ==> (s | f) >> 10usize == ppn) by (bit_vector)
        requires f < 256, s == ppn << 10usize;
    assert(s >> 10usize == ppn ==> (s | f) & 0xffusize == f) by (bit_vector)
        requires f < 256, s == ppn << 10usize;
    assert(s >> 10usize == ppn ==> (((s | f) & 1usize != 0) == (f & 1usize != 0))) by (bit_vector)
        requires f < 256, s == ppn << 10usize;
    assert((f & 1usize != 0) == (flags & 1u8 != 0)) by (bit_vector)
        requires f == flags as usize;
}

} // verus!

verus! {

/// The path of page table nodes, from the root, that leads to the node at
/// level one for the page `vpn`.
pub open spec fn path1(vpn: nat) -> Seq<usize> {
    seq![vpn_index(vpn, 0) as usize]
}

/// The path that leads to the leaf node (level two) for the page `vpn`.
pub open spec fn path2(vpn: nat) -> Seq<usize> {
    seq![vpn_index(vpn, 0) as usize, vpn_index(vpn, 1) as usize]
}

/// How many frames mapping the page `vpn` allocates when the table holds the
/// nodes `nodes`.
pub open spec fn frames_needed(nodes: Set<Seq<usize>>, vpn: nat) -> nat {
    if !nodes.contains(path1(vpn)) {
        2
    } else if !nodes.contains(path2(vpn)) {
        1
    } else {
        0
    }
}

/// The nodes of the table after mapping the page `vpn`.
pub open spec fn nodes_after_map(nodes: Set<Seq<usize>>, vpn: nat) -> Set<Seq<usize>> {
    nodes.insert(path1(vpn)).insert(path2(vpn))
}

/// The leaf entry that mapping a page to `target` with `flags` writes: the
/// valid flag is always added.
pub open spec fn leaf_entry(target: PhysPageNum, flags: PageTableEntryFlags) -> PageTableEntry {
    PageTableEntry { bits: (target.0 << 10usize) | ((flags.0 | 1u8) as usize) }
}

/// Whether an allocator hands out only frames that page table entries can
/// point to.
pub open spec fn allocator_fits(a: FrameAllocatorModel) -> bool {
    a.wf() && a.end < ppn_limit() && a.end * 1024 <= usize::MAX
}

/// An entry whose bits are below 2^54 holds a valid page number above its
/// ten flag bits, so `ppn` reads it without fail.
pub proof fn lemma_entry_ppn_in_range(e: PageTableEntry)
    requires
        (e.bits as nat) < 0x40_0000_0000_0000,
    ensures
        e.spec_ppn() == e.bits / 1024,
        e.spec_ppn() < ppn_limit(),
{
    vstd::arithmetic::power2::lemma2_to64();
    vstd::bits::lemma_usize_shr_is_div(e.bits, 10);
}

/// An entry that points to a page that fits, with only the valid flag, is
/// valid and gives that page back.
pub proof fn new_spec_valid_fits(ppn: PhysPageNum)
    requires
        ppn_fits_entry(ppn.0),
    ensures
        PageTableEntry::new_spec(ppn, 1).spec_valid(),
        PageTableEntry::new_spec(ppn, 1).spec_ppn() == ppn.0,
{
    lemma_entry_fields(ppn.0, 1);
    assert(1u8 & 1u8 != 0) by (bit_vector);
}

/// Two pages of the virtual space with the same three indexes are the same.
pub proof fn lemma_vpn_indexes_injective(v: usize, w: usize)
    requires
        v < vpn_limit(),
        w < vpn_limit(),
        vpn_index(v as nat, 0) == vpn_index(w as nat, 0),
        vpn_index(v as nat, 1) == vpn_index(w as nat, 1),
        vpn_index(v as nat, 2) == vpn_index(w as nat, 2),
    ensures
        v == w,
{
    assert(v < 0x800_0000usize && w < 0x800_0000usize && v % 512 == w % 512 && (v / 512) % 512 == (w
        / 512) % 512 && (v / 0x40000) % 512 == (w / 0x40000) % 512 ==> v == w) by (bit_vector);
}

/// The index, in `frames`, of a frame whose page number is `ppn`.
pub open spec fn frame_index(frames: Seq<FrameTracker>, ppn: usize) -> int {
    choose|k: int| 0 <= k < frames.len() && frames[k].ppn.0 == ppn
}

/// The leaf entry that a walk of the frames `frames` reaches for the page
/// `vpn`, starting from the first frame: at each level the entry selected
/// by the page's index for that level, lowest nine bits first, and the frame
/// that a valid entry points to; none where an entry is not valid.
pub open spec fn walk_frames(frames: Seq<FrameTracker>, vpn: nat) -> Option<PageTableEntry> {
    let e0 = frames[0].entries@[vpn_index(vpn, 0) as int];
    if !e0.spec_valid() {
        None
    } else {
        let e1 = frames[frame_index(frames, e0.spec_ppn())].entries@[vpn_index(vpn, 1) as int];
        if !e1.spec_valid() {
            None
        } else {
            let e2 = frames[frame_index(frames, e1.spec_ppn())].entries@[vpn_index(vpn, 2) as int];
            if e2.spec_valid() {
                Some(e2)
            } else {
                None
            }
        }
    }
}

/// Whether the valid entries that the walk for `vpn` passes through before
/// the leaf hold the page number of the next frame with the valid flag alone.
pub open spec fn walk_directories_plain(frames: Seq<FrameTracker>, vpn: nat) -> bool {
    let e0 = frames[0].entries@[vpn_index(vpn, 0) as int];
    let k1 = frame_index(frames, e0.spec_ppn());
    let e1 = frames[k1].entries@[vpn_index(vpn, 1) as int];
    let k2 = frame_index(frames, e1.spec_ppn());
    &&& e0.spec_valid() ==> e0 == PageTableEntry::new_spec(frames[k1].ppn, 1)
    &&& e0.spec_valid() && e1.spec_valid() ==> e1 == PageTableEntry::new_spec(frames[k2].ppn, 1)
}

/// Whether walking the frames `frames` gives the mappings `m`: every page of
/// the virtual space reaches its entry in `m` when it has one and nothing
/// otherwise, through entries that point to the next frame with the valid
/// flag alone.
pub open spec fn walks_to(frames: Seq<FrameTracker>, m: Map<usize, PageTableEntry>) -> bool {
    forall|v: usize|
        v < vpn_limit() ==> {
            &&& #[trigger] walk_frames(frames, v as nat) == (if m.contains_key(v) {
                Some(m[v])
            } else {
                None
            })
            &&& walk_directories_plain(frames, v as nat)
        }
}

/// A three-level page table: a tree of frames whose root is `root_ppn`. The
/// root is indexed by the lowest nine bits of a virtual page number, the
/// next level by the nine bits above them, and the leaves by the highest
/// nine.
pub struct PageTable {
    pub root_ppn: PhysPageNum,
    frames: Vec<FrameTracker>,
    nodes: Ghost<Map<Seq<usize>, int>>,
}

impl PageTable {
    /// Whether the node reached by the indexes `p` from the root exists.
    closed spec fn has_node(self, p: Seq<usize>) -> bool {
        self.nodes@.contains_key(p)
    }

    /// The index in `frames` of the node reached by `p`.
    closed spec fn node(self, p: Seq<usize>) -> int {
        self.nodes@[p]
    }

    /// Entry `i` of the node reached by `p`.
    closed spec fn pte(self, p: Seq<usize>, i: usize) -> PageTableEntry {
        self.frames@[self.nodes@[p]].entries@[i as int]
    }

    /// The page number of the root frame.
    pub closed spec fn root(self) -> usize {
        self.root_ppn.0
    }

    /// The paths of the nodes of the table.
    pub closed spec fn node_paths(self) -> Set<Seq<usize>> {
        self.nodes@.dom()
    }

    /// Whether none of the table's frames is free in the allocator `a`.
    pub closed spec fn owns_no_free_frame(self, a: FrameAllocatorModel) -> bool {
        forall|k: int| 0 <= k < self.frames@.len() ==> !a.is_free(#[trigger] self.frames@[k].ppn.0 as nat)
    }

    /// The leaf entry of the page `vpn`, if it is mapped.
    closed spec fn leaf(self, vpn: nat) -> Option<PageTableEntry> {
        let p = path2(vpn);
        if self.has_node(p) && self.pte(p, vpn_index(vpn, 2) as usize).spec_valid() {
            Some(self.pte(p, vpn_index(vpn, 2) as usize))
        } else {
            None
        }
    }

    closed spec fn wf_frames(self) -> bool {
        &&& self.frames@.len() >= 1
        &&& self.frames@[0].ppn == self.root_ppn
        &&& forall|k: int|
            0 <= k < self.frames@.len() ==> (#[trigger] self.frames@[k]).entries@.len() == 512
                && ppn_fits_entry(self.frames@[k].ppn.0)
        &&& forall|j: int, k: int|
            0 <= j < self.frames@.len() && 0 <= k < self.frames@.len() && j != k
                ==> (#[trigger] self.frames@[j]).ppn != (#[trigger] self.frames@[k]).ppn
    }

    closed spec fn wf_nodes(self) -> bool {
        &&& self.has_node(Seq::empty())
        &&& self.node(Seq::empty()) == 0
        &&& forall|p: Seq<usize>|
            #[trigger] self.has_node(p) ==> 0 <= self.node(p) < self.frames@.len() && p.len() <= 2
        &&& forall|p: Seq<usize>, q: Seq<usize>|
            #[trigger] self.has_node(p) && #[trigger] self.has_node(q) && self.node(p) == self.node(q)
                ==> p == q
        &&& forall|p: Seq<usize>|
            #[trigger] self.has_node(p) && p.len() > 0 ==> self.has_node(p.drop_last())
    }

    closed spec fn wf_entries(self) -> bool {
        forall|p: Seq<usize>, i: usize|
            self.has_node(p) && i < 512 ==> {
                let e = #[trigger] self.pte(p, i);
                if p.len() < 2 {
                    &&& e.spec_valid() == self.has_node(p.push(i))
                    &&& e.spec_valid() ==> e.spec_ppn() == self.frames@[self.node(p.push(i))].ppn.0
                    &&& e.spec_valid() ==> e == PageTableEntry::new_spec(self.frames@[self.node(p.push(i))].ppn, 1)
                } else {
                    e.spec_valid() ==> e.spec_ppn() < ppn_limit()
                }
            }
    }

    /// The table's invariant.
    pub closed spec fn wf(self) -> bool {
        &&& self.wf_frames()
        &&& self.wf_nodes()
        &&& self.wf_entries()
    }
}

impl View for PageTable {
    type V = Map<usize, PageTableEntry>;

    /// The mapped pages of the virtual space and their leaf entries.
    closed spec fn view(&self) -> Map<usize, PageTableEntry> {
        Map::new(
            |v: usize| v < vpn_limit() && self.leaf(v as nat) is Some,
            |v: usize| self.leaf(v as nat)->Some_0,
        )
    }
}


impl PageTable {
    /// The page number of the root frame.
    pub fn root_ppn(&self) -> (r: PhysPageNum)
        ensures
            r.0 == self.root(),
    {
        self.root_ppn
    }

    /// The frames of the table, each with its entries.
    pub closed spec fn frame_list(self) -> Seq<FrameTracker> {
        self.frames@
    }

    /// The frames of the table, each with the entries it holds.
    pub fn frames(&self) -> (r: &Vec<FrameTracker>)
        ensures
            r@ == self.frame_list(),
    {
        &self.frames
    }

    /// A mapped page has its level-one and leaf nodes, so mapping it again
    /// takes no frame.
    pub proof fn lemma_mapped_has_nodes(self, v: usize)
        requires
            self.wf(),
            self@.contains_key(v),
        ensures
            self.node_paths().contains(path1(v as nat)),
            self.node_paths().contains(path2(v as nat)),
            frames_needed(self.node_paths(), v as nat) == 0,
    {
        assert(self.leaf(v as nat) is Some);
        assert(self.has_node(path2(v as nat)));
        assert(path2(v as nat).drop_last() =~= path1(v as nat));
    }

    /// The frames of a well-formed table hold its mappings: the root comes
    /// first, the frames have distinct page numbers, and walking them gives
    /// the table's view.
    pub proof fn lemma_frames_walk(self)
        requires
            self.wf(),
        ensures
            self.frame_list().len() >= 1,
            self.frame_list()[0].ppn.0 == self.root(),
            forall|k: int| 0 <= k < self.frame_list().len() ==> (#[trigger] self.frame_list()[k]).entries@.len() == 512,
            forall|j: int, k: int|
                0 <= j < self.frame_list().len() && 0 <= k < self.frame_list().len() && j != k
                    ==> (#[trigger] self.frame_list()[j]).ppn != (#[trigger] self.frame_list()[k]).ppn,
            walks_to(self.frame_list(), self@),
    {
        let fr = self.frames@;
        assert(self.has_node(Seq::empty()));
        assert forall|v: usize| v < vpn_limit() implies {
            &&& #[trigger] walk_frames(fr, v as nat) == (if self@.contains_key(v) {
                Some(self@[v])
            } else {
                None
            })
            &&& walk_directories_plain(fr, v as nat)
        } by {
            let w = v as nat;
            let i0 = vpn_index(w, 0) as usize;
            let i1 = vpn_index(w, 1) as usize;
            let i2 = vpn_index(w, 2) as usize;
            assert(Seq::<usize>::empty().push(i0) =~= path1(w));
            assert(path1(w).push(i1) =~= path2(w));
            assert(path2(w).drop_last() =~= path1(w));
            let e0 = fr[0].entries@[i0 as int];
            assert(e0 == self.pte(Seq::empty(), i0));
            if e0.spec_valid() {
                let n1 = self.node(path1(w));
                assert(0 <= n1 < fr.len());
                assert(ppn_fits_entry(fr[n1].ppn.0));
                let k1 = frame_index(fr, e0.spec_ppn());
                assert(fr[n1].ppn.0 == e0.spec_ppn());
                assert(fr[k1].ppn.0 == e0.spec_ppn());
                assert(fr[k1].ppn == fr[n1].ppn);
                assert(k1 == n1);
                let e1 = fr[n1].entries@[i1 as int];
                assert(e1 == self.pte(path1(w), i1));
                if e1.spec_valid() {
                    let n2 = self.node(path2(w));
                    assert(0 <= n2 < fr.len());
                    assert(ppn_fits_entry(fr[n2].ppn.0));
                    let k2 = frame_index(fr, e1.spec_ppn());
                    assert(fr[n2].ppn.0 == e1.spec_ppn());
                    assert(fr[k2].ppn.0 == e1.spec_ppn());
                    assert(fr[k2].ppn == fr[n2].ppn);
                    assert(k2 == n2);
                    let e2 = fr[n2].entries@[i2 as int];
                    assert(e2 == self.pte(path2(w), i2));
                } else {
                    assert(!self.has_node(path2(w)));
                }
            } else {
                assert(!self.has_node(path1(w)));
                if self.has_node(path2(w)) {
                    assert(self.has_node(path2(w).drop_last()));
                }
            }
        }
    }

    /// Writes entry `i` of frame `k`.
    fn set_entry(&mut self, k: usize, i: usize, e: PageTableEntry)
        requires
            k < old(self).frames@.len(),
            i < old(self).frames@[k as int].entries@.len(),
        ensures
            final(self).root_ppn == old(self).root_ppn,
            final(self).nodes == old(self).nodes,
            final(self).frames@.len() == old(self).frames@.len(),
            forall|j: int|
                0 <= j < old(self).frames@.len() && j != k ==> final(self).frames@[j] == old(
                    self,
                ).frames@[j],
            final(self).frames@[k as int].ppn == old(self).frames@[k as int].ppn,
            final(self).frames@[k as int].entries@ == old(self).frames@[k as int].entries@.update(
                i as int,
                e,
            ),
    {
        self.frames[k].entries[i] = e;
    }

    /// The index of the frame whose page number is `ppn`; there must be one.
    fn find_frame(&self, ppn: PhysPageNum) -> (k: usize)
        requires
            exists|j: int| 0 <= j < self.frames@.len() && self.frames@[j].ppn == ppn,
        ensures
            k < self.frames@.len(),
            self.frames@[k as int].ppn == ppn,
    {
        let mut k: usize = 0;
        while k < self.frames.len()
            invariant
                k <= self.frames@.len(),
                exists|j: int| 0 <= j < self.frames@.len() && self.frames@[j].ppn == ppn,
                forall|j: int| 0 <= j < k ==> self.frames@[j].ppn != ppn,
            decreases self.frames@.len() - k,
        {
            if self.frames[k].ppn.0 == ppn.0 {
                return k;
            }
            k = k + 1;
        }
        proof {
            let j = choose|j: int| 0 <= j < self.frames@.len() && self.frames@[j].ppn == ppn;
            assert(self.frames@[j].ppn != ppn);
        }
        0
    }

    /// An empty table whose root is a fresh frame taken from `allocator`,
    /// which must have one.
    pub fn new(allocator: &mut FrameAllocator) -> (r: Self)
        requires
            allocator_fits(old(allocator)@),
            old(allocator)@.available() > 0,
        ensures
            r.wf(),
            r@ == Map::<usize, PageTableEntry>::empty(),
            r.node_paths() == set![Seq::<usize>::empty()],
            r.root() == old(allocator)@.next_frame(),
            final(allocator)@ == old(allocator)@.after_alloc(),
            allocator_fits(final(allocator)@),
            r.owns_no_free_frame(final(allocator)@),
            r.frame_list().len() == 1,
            r.frame_list()[0].ppn.0 == r.root(),
            r.frame_list()[0].entries@.len() == 512,
            forall|i: int| 0 <= i < 512 ==> (#[trigger] r.frame_list()[0].entries@[i]).bits == 0,
            walks_to(r.frame_list(), r@),
    {
        let frame = frame_alloc(allocator);
        let root_ppn = frame.ppn;
        let mut frames: Vec<FrameTracker> = Vec::new();
        frames.push(frame);
        let r = PageTable {
            root_ppn,
            frames,
            nodes: Ghost(Map::<Seq<usize>, int>::empty().insert(Seq::empty(), 0)),
        };
        proof {
            assert(r.frames@[0] == frame);
            assert(r.node_paths() =~= set![Seq::<usize>::empty()]);
            assert forall|p: Seq<usize>, i: usize| r.has_node(p) && i < 512 implies {
                let e = #[trigger] r.pte(p, i);
                if p.len() < 2 {
                    &&& e.spec_valid() == r.has_node(p.push(i))
                    &&& e.spec_valid() ==> e.spec_ppn() == r.frames@[r.node(p.push(i))].ppn.0
                    &&& e.spec_valid() ==> e == PageTableEntry::new_spec(r.frames@[r.node(p.push(i))].ppn, 1)
                } else {
                    e.spec_valid() ==> e.spec_ppn() < ppn_limit()
                }
            } by {
                assert(p =~= Seq::<usize>::empty());
                assert(r.pte(p, i).bits == 0);
                assert(0usize & 1usize == 0) by (bit_vector);
                assert(p.push(i).len() == 1);
            }
            assert(r@ =~= Map::<usize, PageTableEntry>::empty()) by {
                assert forall|v: usize| !(#[trigger] r.leaf(v as nat) is Some) by {
                    assert(path2(v as nat).len() == 2);
                    assert(!r.has_node(path2(v as nat)));
                }
            }
            assert(r.owns_no_free_frame(allocator@));
        }
        proof {
            r.lemma_frames_walk();
        }
        r
    }
}


impl PageTable {
    /// The frame of the child `i` of the node `p`, held by frame `k`; when
    /// that child does not exist, a fresh frame from `allocator` becomes it.
    fn child(
        &mut self,
        k: usize,
        Ghost(p): Ghost<Seq<usize>>,
        i: usize,
        allocator: &mut FrameAllocator,
    ) -> (r: usize)
        requires
            old(self).wf(),
            old(self).has_node(p),
            p.len() < 2,
            old(self).node(p) == k,
            i < 512,
            allocator_fits(old(allocator)@),
            old(self).owns_no_free_frame(old(allocator)@),
            !old(self).has_node(p.push(i)) ==> old(allocator)@.available() > 0,
        ensures
            final(self).wf(),
            final(self).root_ppn == old(self).root_ppn,
            final(self)@ == old(self)@,
            final(self).nodes@ == old(self).nodes@.insert(p.push(i), r as int),
            final(self).has_node(p.push(i)),
            final(self).node(p.push(i)) == r,
            final(allocator)@ == (if old(self).has_node(p.push(i)) {
                old(allocator)@
            } else {
                old(allocator)@.after_alloc()
            }),
            final(self).frames@.len() == old(self).frames@.len() + (if old(self).has_node(p.push(i)) {
                0int
            } else {
                1int
            }),
            forall|k: int|
                0 <= k < old(self).frames@.len() ==> #[trigger] final(self).frames@[k].ppn
                    == old(self).frames@[k].ppn,
            !old(self).has_node(p.push(i)) ==> final(self).frames@[old(self).frames@.len() as int].ppn.0
                == old(allocator)@.next_frame(),
            allocator_fits(final(allocator)@),
            final(self).owns_no_free_frame(final(allocator)@),
    {
        let e = self.frames[k].entries[i];
        proof {
            assert(e == self.pte(p, i));
        }
        if e.is_valid() {
            let ppn = e.ppn();
            proof {
                let c = self.node(p.push(i));
                assert(self.has_node(p.push(i)));
                assert(self.frames@[c].ppn == ppn);
            }
            let r = self.find_frame(ppn);
            proof {
                let c = self.node(p.push(i));
                assert(self.frames@[c] == self.frames@[r as int]);
                assert(self.nodes@.insert(p.push(i), r as int) =~= self.nodes@);
            }
            r
        } else {
            let frame = frame_alloc(allocator);
            let new_ppn = frame.ppn;
            let idx = self.frames.len();
            let pte = PageTableEntry::new(new_ppn, PageTableEntryFlags::V());
            self.set_entry(k, i, pte);
            self.frames.push(frame);
            self.nodes = Ghost(self.nodes@.insert(p.push(i), idx as int));
            proof {
                self.lemma_child_added(*old(self), p, i, old(allocator)@, allocator@);
            }
            idx
        }
    }

    /// The invariant and the mapped pages survive linking a fresh, cleared
    /// frame as the child `i` of the node `p`.
    proof fn lemma_child_added(
        self,
        old_pt: PageTable,
        p: Seq<usize>,
        i: usize,
        old_alloc: FrameAllocatorModel,
        new_alloc: FrameAllocatorModel,
    )
        requires
            old_pt.wf(),
            old_pt.has_node(p),
            p.len() < 2,
            i < 512,
            !old_pt.has_node(p.push(i)),
            allocator_fits(old_alloc),
            old_alloc.available() > 0,
            new_alloc == old_alloc.after_alloc(),
            old_pt.owns_no_free_frame(old_alloc),
            self.root_ppn == old_pt.root_ppn,
            self.nodes@ == old_pt.nodes@.insert(p.push(i), old_pt.frames@.len() as int),
            self.frames@.len() == old_pt.frames@.len() + 1,
            ({
                let k = old_pt.node(p);
                &&& forall|j: int|
                    0 <= j < old_pt.frames@.len() && j != k ==> self.frames@[j] == old_pt.frames@[j]
                &&& self.frames@[k].ppn == old_pt.frames@[k].ppn
                &&& self.frames@[k].entries@ == old_pt.frames@[k].entries@.update(
                    i as int,
                    PageTableEntry::new_spec(self.frames@[old_pt.frames@.len() as int].ppn, 1),
                )
            }),
            self.frames@[old_pt.frames@.len() as int].ppn.0 == old_alloc.next_frame(),
            self.frames@[old_pt.frames@.len() as int].entries@.len() == 512,
            forall|j: int|
                0 <= j < 512 ==> (#[trigger] self.frames@[old_pt.frames@.len() as int].entries@[j]).bits
                    == 0,
        ensures
            self.wf(),
            self@ == old_pt@,
            allocator_fits(new_alloc),
            self.owns_no_free_frame(new_alloc),
    {
        let k = old_pt.node(p);
        let n = old_pt.frames@.len() as int;
        let q0 = p.push(i);
        let new_ppn = self.frames@[n].ppn;
        assert(old_pt.has_node(Seq::empty()));
        assert(0 <= k < n);
        // The fresh frame was free, hence it fits and differs from every frame
        // already in the table.
        assert(old_alloc.is_free(new_ppn.0 as nat)) by {
            lemma_alloc_never_repeats_one(old_alloc);
        }
        assert(new_ppn.0 < old_alloc.end) by {
            if old_alloc.recycled.contains(new_ppn.0) {
                let w = choose|w: int| 0 <= w < old_alloc.recycled.len() && old_alloc.recycled[w] == new_ppn.0;
                assert(old_alloc.recycled[w] < old_alloc.current);
            }
        }
        assert(ppn_fits_entry(new_ppn.0));
        assert(forall|j: int| 0 <= j < n ==> self.frames@[j].ppn == old_pt.frames@[j].ppn);
        assert forall|j: int| 0 <= j < n implies self.frames@[j].ppn != new_ppn by {
            assert(!old_alloc.is_free(old_pt.frames@[j].ppn.0 as nat));
        }
        // frames
        assert forall|j: int, l: int|
            0 <= j < self.frames@.len() && 0 <= l < self.frames@.len() && j != l
            implies (#[trigger] self.frames@[j]).ppn != (#[trigger] self.frames@[l]).ppn by {
            if j < n && l < n {
                assert(old_pt.frames@[j].ppn != old_pt.frames@[l].ppn);
            }
        }
        assert forall|j: int| 0 <= j < self.frames@.len() implies (#[trigger] self.frames@[j]).entries@.len()
            == 512 && ppn_fits_entry(self.frames@[j].ppn.0) by {
            if j < n {
                assert(old_pt.frames@[j].entries@.len() == 512);
                assert(ppn_fits_entry(old_pt.frames@[j].ppn.0));
            }
        }
        assert(self.wf_frames());
        // nodes
        assert(q0.len() == p.len() + 1);
        assert(q0.drop_last() =~= p);
        assert forall|q: Seq<usize>| #[trigger] self.has_node(q) implies 0 <= self.node(q)
            < self.frames@.len() && q.len() <= 2 by {
            if q != q0 {
                assert(old_pt.has_node(q));
            }
        }
        assert forall|q: Seq<usize>, r: Seq<usize>|
            #[trigger] self.has_node(q) && #[trigger] self.has_node(r) && self.node(q) == self.node(r)
            implies q == r by {
            if q != q0 && r != q0 {
                assert(old_pt.has_node(q) && old_pt.has_node(r));
            } else if q != q0 {
                assert(old_pt.has_node(q));
            } else if r != q0 {
                assert(old_pt.has_node(r));
            }
        }
        assert forall|q: Seq<usize>| #[trigger] self.has_node(q) && q.len() > 0 implies self.has_node(
            q.drop_last(),
        ) by {
            if q != q0 {
                assert(old_pt.has_node(q));
            }
        }
        assert(self.wf_nodes());
        // entries
        new_spec_valid_fits(new_ppn);
        assert forall|q: Seq<usize>, j: usize| self.has_node(q) && j < 512 implies {
            let e = #[trigger] self.pte(q, j);
            if q.len() < 2 {
                &&& e.spec_valid() == self.has_node(q.push(j))
                &&& e.spec_valid() ==> e.spec_ppn() == self.frames@[self.node(q.push(j))].ppn.0
                &&& e.spec_valid() ==> e == PageTableEntry::new_spec(self.frames@[self.node(q.push(j))].ppn, 1)
            } else {
                e.spec_valid() ==> e.spec_ppn() < ppn_limit()
            }
        } by {
            if q == q0 {
                assert(self.pte(q, j).bits == 0);
                assert(0usize & 1usize == 0) by (bit_vector);
                if q.len() < 2 {
                    assert(q.push(j) != q0) by {
                        assert(q.push(j).len() != q0.len());
                    }
                    if old_pt.has_node(q.push(j)) {
                        assert(q.push(j).drop_last() =~= q0);
                        assert(old_pt.has_node(q0));
                    }
                }
            } else {
                assert(old_pt.has_node(q));
                let m = old_pt.node(q);
                assert(self.node(q) == m);
                if m == k {
                    assert(old_pt.has_node(p));
                    assert(q == p);
                    if j == i {
                        assert(self.pte(q, j) == PageTableEntry::new_spec(new_ppn, 1));
                    } else {
                        assert(self.pte(q, j) == old_pt.pte(q, j));
                        assert(q.push(j) != q0) by {
                            assert(q.push(j)[q.len() as int] != q0[q.len() as int]);
                        }
                        if old_pt.has_node(q.push(j)) {
                            assert(0 <= old_pt.node(q.push(j)) < n);
                        }
                    }
                } else {
                    assert(self.pte(q, j) == old_pt.pte(q, j));
                    if q.len() < 2 {
                        assert(q.push(j) != q0) by {
                            if q.push(j) == q0 {
                                assert(q.push(j).drop_last() =~= q);
                            }
                        }
                        if old_pt.has_node(q.push(j)) {
                            assert(0 <= old_pt.node(q.push(j)) < n);
                        }
                    }
                }
            }
        }
        assert(self.wf_entries());
        // the mapped pages are unchanged
        assert forall|v: usize| #[trigger] self.leaf(v as nat) == old_pt.leaf(v as nat) by {
            let p2 = path2(v as nat);
            let x = vpn_index(v as nat, 2) as usize;
            if p2 == q0 {
                assert(self.pte(p2, x).bits == 0);
                assert(0usize & 1usize == 0) by (bit_vector);
            } else if old_pt.has_node(p2) {
                let m = old_pt.node(p2);
                if m == k {
                    assert(old_pt.has_node(p));
                    assert(p2 == p);
                }
                assert(self.pte(p2, x) == old_pt.pte(p2, x));
            }
        }
        assert(self@ =~= old_pt@);
        // the allocator
        lemma_alloc_never_repeats_one(old_alloc);
        assert forall|j: int| 0 <= j < self.frames@.len() implies !new_alloc.is_free(
            #[trigger] self.frames@[j].ppn.0 as nat,
        ) by {
            if j < n {
                assert(!old_alloc.is_free(old_pt.frames@[j].ppn.0 as nat));
                assert(self.frames@[j].ppn.0 != old_alloc.next_frame());
            }
        }
    }
}


impl PageTable {
    /// The invariant survives writing entry `vpn_index(vpn, 2)` of the leaf
    /// node of `vpn`, and the mapped pages change only at `vpn`.
    proof fn lemma_leaf_written(self, old_pt: PageTable, vpn: usize, e: PageTableEntry)
        requires
            old_pt.wf(),
            vpn < vpn_limit(),
            old_pt.has_node(path2(vpn as nat)),
            e.spec_valid() ==> e.spec_ppn() < ppn_limit(),
            self.root_ppn == old_pt.root_ppn,
            self.nodes == old_pt.nodes,
            self.frames@.len() == old_pt.frames@.len(),
            ({
                let k = old_pt.node(path2(vpn as nat));
                &&& forall|j: int|
                    0 <= j < old_pt.frames@.len() && j != k ==> self.frames@[j] == old_pt.frames@[j]
                &&& self.frames@[k].ppn == old_pt.frames@[k].ppn
                &&& self.frames@[k].entries@ == old_pt.frames@[k].entries@.update(
                    vpn_index(vpn as nat, 2) as int,
                    e,
                )
            }),
        ensures
            self.wf(),
            self@ == (if e.spec_valid() {
                old_pt@.insert(vpn, e)
            } else {
                old_pt@.remove(vpn)
            }),
    {
        let p2 = path2(vpn as nat);
        let k = old_pt.node(p2);
        let x = vpn_index(vpn as nat, 2) as usize;
        assert(old_pt.has_node(Seq::empty()));
        assert(0 <= k < old_pt.frames@.len());
        assert forall|j: int| 0 <= j < self.frames@.len() implies (#[trigger] self.frames@[j]).entries@.len()
            == 512 && ppn_fits_entry(self.frames@[j].ppn.0) by {
            assert(old_pt.frames@[j].entries@.len() == 512);
            assert(ppn_fits_entry(old_pt.frames@[j].ppn.0));
        }
        assert forall|j: int, l: int|
            0 <= j < self.frames@.len() && 0 <= l < self.frames@.len() && j != l
            implies (#[trigger] self.frames@[j]).ppn != (#[trigger] self.frames@[l]).ppn by {
            assert(old_pt.frames@[j].ppn != old_pt.frames@[l].ppn);
        }
        assert(self.wf_frames());
        assert forall|q: Seq<usize>| #[trigger] self.has_node(q) implies 0 <= self.node(q)
            < self.frames@.len() && q.len() <= 2 by {
            assert(old_pt.has_node(q));
        }
        assert forall|q: Seq<usize>, r: Seq<usize>|
            #[trigger] self.has_node(q) && #[trigger] self.has_node(r) && self.node(q) == self.node(r)
            implies q == r by {
            assert(old_pt.has_node(q) && old_pt.has_node(r));
        }
        assert forall|q: Seq<usize>| #[trigger] self.has_node(q) && q.len() > 0 implies self.has_node(
            q.drop_last(),
        ) by {
            assert(old_pt.has_node(q));
            assert(old_pt.has_node(q.drop_last()));
        }
        assert(self.wf_nodes());
        assert forall|q: Seq<usize>, j: usize| self.has_node(q) && j < 512 implies {
            let e = #[trigger] self.pte(q, j);
            if q.len() < 2 {
                &&& e.spec_valid() == self.has_node(q.push(j))
                &&& e.spec_valid() ==> e.spec_ppn() == self.frames@[self.node(q.push(j))].ppn.0
                &&& e.spec_valid() ==> e == PageTableEntry::new_spec(self.frames@[self.node(q.push(j))].ppn, 1)
            } else {
                e.spec_valid() ==> e.spec_ppn() < ppn_limit()
            }
        } by {
            assert(old_pt.has_node(q));
            assert(old_pt.pte(q, j) == old_pt.pte(q, j));
            if self.node(q) == k {
                assert(old_pt.has_node(p2));
                assert(q == p2);
                if j == x {
                    assert(self.pte(q, j) == e);
                } else {
                    assert(self.pte(q, j) == old_pt.pte(q, j));
                }
            } else {
                assert(self.pte(q, j) == old_pt.pte(q, j));
            }
            assert(self.has_node(q.push(j)) == old_pt.has_node(q.push(j)));
            if q.len() < 2 && old_pt.has_node(q.push(j)) {
                assert(0 <= old_pt.node(q.push(j)) < old_pt.frames@.len());
                assert(self.node(q.push(j)) == old_pt.node(q.push(j)));
                if self.node(q.push(j)) == k {
                    assert(old_pt.has_node(p2));
                    assert(q.push(j) == p2);
                }
            }
        }
        assert(self.wf_entries());
        assert forall|v: usize| v < vpn_limit() && v != vpn implies #[trigger] self.leaf(v as nat)
            == old_pt.leaf(v as nat) by {
            let q2 = path2(v as nat);
            let y = vpn_index(v as nat, 2) as usize;
            if old_pt.has_node(q2) {
                if old_pt.node(q2) == k {
                    assert(old_pt.has_node(p2));
                    assert(q2 == p2);
                    assert(q2[0] == p2[0] && q2[1] == p2[1]);
                    if y == x {
                        lemma_vpn_indexes_injective(v, vpn);
                    }
                }
                assert(self.pte(q2, y) == old_pt.pte(q2, y));
            }
        }
        assert(self.pte(p2, x) == e);
        if e.spec_valid() {
            assert(self@ =~= old_pt@.insert(vpn, e));
        } else {
            assert(self@ =~= old_pt@.remove(vpn));
        }
    }

    /// Maps the page `vpn` to the frame `target_ppn` with `flags` and the
    /// valid flag, taking from `allocator` the frames of the missing nodes on
    /// the way. A page that is already mapped keeps its mapping.
    pub fn map(
        &mut self,
        vpn: VirtPageNum,
        target_ppn: PhysPageNum,
        flags: PageTableEntryFlags,
        allocator: &mut FrameAllocator,
    )
        requires
            old(self).wf(),
            vpn.0 < vpn_limit(),
            ppn_fits_entry(target_ppn.0),
            allocator_fits(old(allocator)@),
            old(self).owns_no_free_frame(old(allocator)@),
            old(allocator)@.available() >= frames_needed(old(self).node_paths(), vpn.0 as nat),
        ensures
            final(self).wf(),
            final(self).root() == old(self).root(),
            final(self)@ == (if old(self)@.contains_key(vpn.0) {
                old(self)@
            } else {
                old(self)@.insert(vpn.0, leaf_entry(target_ppn, flags))
            }),
            final(self).node_paths() == nodes_after_map(old(self).node_paths(), vpn.0 as nat),
            old(self)@.contains_key(vpn.0) ==> final(allocator)@ == old(allocator)@,
            old(self)@.contains_key(vpn.0) ==> final(self).node_paths() == old(self).node_paths(),
            final(allocator)@ == old(allocator)@.after_allocs(
                frames_needed(old(self).node_paths(), vpn.0 as nat),
            ),
            allocator_fits(final(allocator)@),
            final(self).owns_no_free_frame(final(allocator)@),
            final(self).frame_list().len() == old(self).frame_list().len() + frames_needed(
                old(self).node_paths(),
                vpn.0 as nat,
            ),
            forall|k: int|
                0 <= k < old(self).frame_list().len() ==> #[trigger] final(self).frame_list()[k].ppn
                    == old(self).frame_list()[k].ppn,
            forall|j: int|
                0 <= j < frames_needed(old(self).node_paths(), vpn.0 as nat)
                    ==> (#[trigger] final(self).frame_list()[old(self).frame_list().len() + j]).ppn.0
                    == old(allocator)@.after_allocs(j as nat).next_frame(),
            final(self).frame_list()[0].ppn.0 == final(self).root(),
            walks_to(final(self).frame_list(), final(self)@),
    {
        let ghost v = vpn.0 as nat;
        let indexes = vpn.indexes();
        proof {
            if old(self)@.contains_key(vpn.0) {
                old(self).lemma_mapped_has_nodes(vpn.0);
                assert(nodes_after_map(old(self).node_paths(), v) =~= old(self).node_paths());
                lemma_after_allocs_unfold(old(allocator)@);
            }
            assert(old(self).has_node(Seq::empty()));
            assert(Seq::<usize>::empty().push(indexes[0]) =~= path1(v));
            assert(path1(v).push(indexes[1]) =~= path2(v));
            if !old(self).has_node(path1(v)) && old(self).has_node(path2(v)) {
                assert(path2(v).drop_last() =~= path1(v));
            }
            lemma_after_allocs_unfold(old(allocator)@);
        }
        let k1 = self.child(0, Ghost(Seq::empty()), indexes[0], allocator);
        proof {
            if !old(self).has_node(path1(v)) {
                lemma_alloc_never_repeats_one(old(allocator)@);
            }
        }
        let ghost a1 = allocator@;
        let ghost fr1 = self.frames@;
        let ghost had1 = self.has_node(path1(v).push(indexes[1]));
        let k2 = self.child(k1, Ghost(path1(v)), indexes[1], allocator);
        let ghost fr2 = self.frames@;
        proof {
            let n = old(self).frames@.len() as int;
            reveal_with_fuel(FrameAllocatorModel::after_allocs, 2);
            if !old(self).has_node(path1(v)) {
                assert(!had1);
                assert(fr2[n].ppn == fr1[n].ppn);
            }
        }
        let e = self.frames[k2].entries[indexes[2]];
        proof {
            assert(e == self.pte(path2(v), indexes[2]));
            assert(self.nodes@.dom() =~= nodes_after_map(old(self).node_paths(), v));
            assert(self@.contains_key(vpn.0) == e.spec_valid());
        }
        if !e.is_valid() {
            let ghost before = *self;
            let leaf = PageTableEntry::new(target_ppn, flags | PageTableEntryFlags::V());
            proof {
                assert(leaf == leaf_entry(target_ppn, flags));
                lemma_entry_fields(target_ppn.0, (flags.0 | 1u8) as u8);
                let f: u8 = flags.0;
                assert((f | 1u8) & 1u8 != 0) by (bit_vector);
            }
            self.set_entry(k2, indexes[2], leaf);
            proof {
                self.lemma_leaf_written(before, vpn.0, leaf);
            }
        }
        proof {
            self.lemma_frames_walk();
            assert forall|k: int| 0 <= k < old(self).frame_list().len() implies #[trigger] self.frame_list()[k].ppn
                == old(self).frame_list()[k].ppn by {
                assert(fr1[k].ppn == old(self).frames@[k].ppn);
                assert(fr2[k].ppn == fr1[k].ppn);
            }
        }
    }

    /// Removes the mapping of the page `vpn`, which must be mapped. The nodes
    /// of the table stay.
    pub fn unmap(&mut self, vpn: VirtPageNum)
        requires
            old(self).wf(),
            old(self)@.contains_key(vpn.0),
        ensures
            final(self).wf(),
            final(self).root() == old(self).root(),
            final(self)@ == old(self)@.remove(vpn.0),
            final(self).node_paths() == old(self).node_paths(),
            forall|a: FrameAllocatorModel| old(self).owns_no_free_frame(a) ==> final(self).owns_no_free_frame(a),
            final(self).frame_list().len() == old(self).frame_list().len(),
            forall|k: int|
                0 <= k < old(self).frame_list().len() ==> #[trigger] final(self).frame_list()[k].ppn
                    == old(self).frame_list()[k].ppn,
            walks_to(final(self).frame_list(), final(self)@),
    {
        let ghost v = vpn.0 as nat;
        let indexes = vpn.indexes();
        proof {
            assert(old(self).leaf(v) is Some);
            assert(old(self).has_node(path2(v)));
            assert(path2(v).drop_last() =~= path1(v));
            assert(path1(v).drop_last() =~= Seq::<usize>::empty());
            assert(Seq::<usize>::empty().push(indexes[0]) =~= path1(v));
            assert(path1(v).push(indexes[1]) =~= path2(v));
            assert(old(self).has_node(path1(v)));
            assert(old(self).has_node(Seq::empty()));
            assert(old(self).pte(Seq::empty(), indexes[0]) == old(self).pte(Seq::empty(), indexes[0]));
            assert(old(self).pte(path1(v), indexes[1]) == old(self).pte(path1(v), indexes[1]));
            assert(0 <= old(self).node(path1(v)) < old(self).frames@.len());
            assert(0 <= old(self).node(path2(v)) < old(self).frames@.len());
        }
        let e0 = self.frames[0].entries[indexes[0]];
        proof {
            assert(e0 == old(self).pte(Seq::empty(), indexes[0]));
            assert(ppn_fits_entry(old(self).frames@[old(self).node(path1(v))].ppn.0));
        }
        let k1 = self.find_frame(e0.ppn());
        proof {
            assert(old(self).frames@[k1 as int].ppn == old(self).frames@[old(self).node(path1(v))].ppn);
            assert(k1 as int == old(self).node(path1(v)));
        }
        let e1 = self.frames[k1].entries[indexes[1]];
        proof {
            assert(e1 == old(self).pte(path1(v), indexes[1]));
            assert(ppn_fits_entry(old(self).frames@[old(self).node(path2(v))].ppn.0));
        }
        let k2 = self.find_frame(e1.ppn());
        proof {
            assert(old(self).frames@[k2 as int].ppn == old(self).frames@[old(self).node(path2(v))].ppn);
            assert(k2 as int == old(self).node(path2(v)));
            assert(0usize & 1usize == 0) by (bit_vector);
        }
        self.set_entry(k2, indexes[2], PageTableEntry { bits: 0 });
        proof {
            self.lemma_leaf_written(*old(self), vpn.0, PageTableEntry { bits: 0 });
            assert(self.nodes@.dom() =~= old(self).nodes@.dom());
            self.lemma_frames_walk();
        }
    }
}


impl PageTable {
    /// The leaf entry of the page `vpn`, if it is mapped.
    pub fn translate(&self, vpn: VirtPageNum) -> (r: Option<PageTableEntry>)
        requires
            self.wf(),
            vpn.0 < vpn_limit(),
        ensures
            r == (if self@.contains_key(vpn.0) {
                Some(self@[vpn.0])
            } else {
                None
            }),
    {
        let ghost v = vpn.0 as nat;
        let indexes = vpn.indexes();
        proof {
            assert(self.has_node(Seq::empty()));
            assert(Seq::<usize>::empty().push(indexes[0]) =~= path1(v));
            assert(path1(v).push(indexes[1]) =~= path2(v));
            assert(path2(v).drop_last() =~= path1(v));
        }
        let e0 = self.frames[0].entries[indexes[0]];
        proof {
            assert(e0 == self.pte(Seq::empty(), indexes[0]));
        }
        if !e0.is_valid() {
            proof {
                assert(!self.has_node(path1(v)));
                assert(!self.has_node(path2(v)));
            }
            return None;
        }
        proof {
            assert(0 <= self.node(path1(v)) < self.frames@.len());
            assert(ppn_fits_entry(self.frames@[self.node(path1(v))].ppn.0));
        }
        let k1 = self.find_frame(e0.ppn());
        proof {
            assert(self.frames@[k1 as int].ppn == self.frames@[self.node(path1(v))].ppn);
            assert(k1 as int == self.node(path1(v)));
        }
        let e1 = self.frames[k1].entries[indexes[1]];
        proof {
            assert(e1 == self.pte(path1(v), indexes[1]));
        }
        if !e1.is_valid() {
            return None;
        }
        proof {
            assert(0 <= self.node(path2(v)) < self.frames@.len());
            assert(ppn_fits_entry(self.frames@[self.node(path2(v))].ppn.0));
        }
        let k2 = self.find_frame(e1.ppn());
        proof {
            assert(self.frames@[k2 as int].ppn == self.frames@[self.node(path2(v))].ppn);
            assert(k2 as int == self.node(path2(v)));
        }
        let e2 = self.frames[k2].entries[indexes[2]];
        proof {
            assert(e2 == self.pte(path2(v), indexes[2]));
        }
        if e2.is_valid() {
            Some(e2)
        } else {
            None
        }
    }
}

/// The leaf entry that mapping writes points to the target frame, is valid,
/// and carries the given flags with the valid flag added.
pub proof fn lemma_leaf_entry_fields(target: PhysPageNum, flags: PageTableEntryFlags)
    requires
        ppn_fits_entry(target.0),
    ensures
        leaf_entry(target, flags).spec_ppn() == target.0,
        leaf_entry(target, flags).spec_valid(),
        leaf_entry(target, flags).spec_flags() == flags.0 | 1u8,
{
    lemma_entry_fields(target.0, flags.0 | 1u8);
    let f = flags.0;
    assert((f | 1u8) & 1u8 != 0) by (bit_vector);
}

/// Mapping a page that was not mapped and then unmapping it gives back the
/// mappings there were.
pub proof fn lemma_map_unmap_round_trip(
    m: Map<usize, PageTableEntry>,
    vpn: usize,
    target: PhysPageNum,
    flags: PageTableEntryFlags,
)
    requires
        !m.contains_key(vpn),
    ensures
        m.insert(vpn, leaf_entry(target, flags)).remove(vpn) == m,
{
    assert(m.insert(vpn, leaf_entry(target, flags)).remove(vpn) =~= m);
}

} // verus!

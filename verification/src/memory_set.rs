//! Address spaces: areas of virtual pages mapped through a page table.
use vstd::prelude::*;
use crate::address::{PhysPageNum, VirtAddr, VirtPageNum, vpn_limit};
use crate::frame_allocator::{
    FrameAllocator, FrameAllocatorModel, lemma_after_allocs, lemma_after_allocs_add,
};
use crate::page_table::{
    PageTable, PageTableEntry, PageTableEntryFlags, allocator_fits, frames_needed, leaf_entry,
    nodes_after_map, path1, path2,
};

verus! {

/// Permissions of a mapped area.
#[derive(Clone, Copy, PartialEq, Eq, Structural)]
pub struct MapPermission(pub u8);

#[allow(non_snake_case)]
impl MapPermission {
    /// Readable.
    pub fn R() -> (r: Self)
        ensures
            r.0 == 2,
    {
        MapPermission(2)
    }

    /// Writable.
    pub fn W() -> (r: Self)
        ensures
            r.0 == 4,
    {
        MapPermission(4)
    }

    /// Executable.
    pub fn X() -> (r: Self)
        ensures
            r.0 == 8,
    {
        MapPermission(8)
    }

    /// Accessible from user mode.
    pub fn U() -> (r: Self)
        ensures
            r.0 == 16,
    {
        MapPermission(16)
    }

    /// Whether the two permissions share a bit.
    pub fn contains(&self, other: Self) -> (r: bool)
        ensures
            r == (self.0 & other.0 != 0),
    {
        (self.0 & other.0) != 0
    }

    /// The page table flags of these permissions: the valid flag and each of
    /// the read, write, execute and user flags that the permissions hold.
    pub fn to_pte_flags(self) -> (r: PageTableEntryFlags)
        ensures
            r.0 == pte_flags_of(self.0),
            r.0 & 1 != 0,
            (r.0 & 2 != 0) == (self.0 & 2 != 0),
            (r.0 & 4 != 0) == (self.0 & 4 != 0),
            (r.0 & 8 != 0) == (self.0 & 8 != 0),
            (r.0 & 16 != 0) == (self.0 & 16 != 0),
            r.0 & 0xe0 == 0,
    {
        let ghost p = self.0;
        let mut flags = PageTableEntryFlags::V();
        if self.contains(MapPermission::R()) {
            flags = flags | PageTableEntryFlags::R();
        }
        proof {
            let f = flags.0;
            assert(f == (p & 2) | 1) by (bit_vector)
                requires
                    f == (if p & 2 != 0 { 1u8 | 2u8 } else { 1u8 }),
            ;
        }
        if self.contains(MapPermission::W()) {
            flags = flags | PageTableEntryFlags::W();
        }
        proof {
            let f = flags.0;
            assert(f == (p & 6) | 1) by (bit_vector)
                requires
                    f == (if p & 4 != 0 { ((p & 2) | 1) | 4u8 } else { (p & 2) | 1 }),
            ;
        }
        if self.contains(MapPermission::X()) {
            flags = flags | PageTableEntryFlags::X();
        }
        proof {
            let f = flags.0;
            assert(f == (p & 0xe) | 1) by (bit_vector)
                requires
                    f == (if p & 8 != 0 { ((p & 6) | 1) | 8u8 } else { (p & 6) | 1 }),
            ;
        }
        if self.contains(MapPermission::U()) {
            flags = flags | PageTableEntryFlags::U();
        }
        proof {
            let f = flags.0;
            assert(f == (p & 0x1e) | 1) by (bit_vector)
                requires
                    f == (if p & 16 != 0 { ((p & 0xe) | 1) | 16u8 } else { (p & 0xe) | 1 }),
            ;
        }
        proof {
            lemma_pte_flags_bits(p);
        }
        flags
    }
}

/// The page table flags of the permission bits `p`: bits one to four of `p`
/// and the valid bit.
pub open spec fn pte_flags_of(p: u8) -> u8 {
    (p & 0x1e) | 1
}

/// The entry flags of permissions carry the valid flag, and each of the
/// read, write, execute and user flags exactly when the permissions hold
/// that bit; no other flag.
pub proof fn lemma_pte_flags_bits(p: u8)
    ensures
        pte_flags_of(p) & 1 != 0,
        (pte_flags_of(p) & 2 != 0) == (p & 2 != 0),
        (pte_flags_of(p) & 4 != 0) == (p & 4 != 0),
        (pte_flags_of(p) & 8 != 0) == (p & 8 != 0),
        (pte_flags_of(p) & 16 != 0) == (p & 16 != 0),
        pte_flags_of(p) & 0xe0 == 0,
{
    assert(((p & 0x1e) | 1) & 1 != 0) by (bit_vector);
    assert((((p & 0x1e) | 1) & 2 != 0) == (p & 2 != 0)) by (bit_vector);
    assert((((p & 0x1e) | 1) & 4 != 0) == (p & 4 != 0)) by (bit_vector);
    assert((((p & 0x1e) | 1) & 8 != 0) == (p & 8 != 0)) by (bit_vector);
    assert((((p & 0x1e) | 1) & 16 != 0) == (p & 16 != 0)) by (bit_vector);
    assert(((p & 0x1e) | 1) & 0xe0 == 0) by (bit_vector);
}

impl core::ops::BitOr for MapPermission {
    type Output = Self;

    fn bitor(self, rhs: Self) -> (r: Self) {
        MapPermission(self.0 | rhs.0)
    }
}

impl vstd::std_specs::ops::BitOrSpecImpl for MapPermission {
    open spec fn obeys_bitor_spec() -> bool {
        true
    }

    open spec fn bitor_req(self, rhs: Self) -> bool {
        true
    }

    open spec fn bitor_spec(self, rhs: Self) -> Self {
        MapPermission(self.0 | rhs.0)
    }
}

/// How the pages of an area are backed.
pub enum MapType {
    Identical,
    Framed,
}

} // verus!

verus! {

/// How many frames mapping the pages `start` to `end` (excluded), in order,
/// allocates when the table holds the nodes `nodes`.
pub open spec fn frames_needed_range(nodes: Set<Seq<usize>>, start: nat, end: nat) -> nat
    decreases end - start,
{
    if start >= end {
        0
    } else {
        frames_needed(nodes, start) + frames_needed_range(nodes_after_map(nodes, start), start + 1, end)
    }
}

/// The nodes of a table after mapping the pages `start` to `end` (excluded).
pub open spec fn nodes_after_range(nodes: Set<Seq<usize>>, start: nat, end: nat) -> Set<Seq<usize>>
    decreases end - start,
{
    if start >= end {
        nodes
    } else {
        nodes_after_range(nodes_after_map(nodes, start), start + 1, end)
    }
}

/// The mappings `m` after mapping each page from `start` to `end` (excluded)
/// to the frame of the same number with `flags`, leaving the pages already
/// mapped as they were.
pub open spec fn identity_mapped(
    m: Map<usize, PageTableEntry>,
    start: nat,
    end: nat,
    flags: PageTableEntryFlags,
) -> Map<usize, PageTableEntry> {
    Map::new(
        |v: usize| m.contains_key(v) || (start <= v < end),
        |v: usize|
            if m.contains_key(v) {
                m[v]
            } else {
                leaf_entry(PhysPageNum(v), flags)
            },
    )
}

/// An area of consecutive virtual pages, mapped with one set of permissions.
pub struct MapArea {
    vpn_range: (VirtPageNum, VirtPageNum),
    map_perm: MapPermission,
}

impl MapArea {
    /// The first page of the area.
    pub closed spec fn start(self) -> nat {
        self.vpn_range.0.0 as nat
    }

    /// The page after the last page of the area.
    pub closed spec fn end(self) -> nat {
        self.vpn_range.1.0 as nat
    }

    /// The permissions of the area.
    pub closed spec fn perm(self) -> MapPermission {
        self.map_perm
    }

    /// Whether every page of the area is a page of the virtual space that a
    /// page table entry can point to.
    pub open spec fn wf(self) -> bool {
        self.end() <= vpn_limit() && self.end() * 1024 <= usize::MAX
    }

    /// The area of the pages that hold the addresses `start_va` to `end_va`.
    pub fn new(start_va: VirtAddr, end_va: VirtAddr, map_perm: MapPermission) -> (r: Self)
        requires
            end_va.0 + 4096 <= usize::MAX,
        ensures
            r.start() == start_va.0 / 4096,
            r.end() == (end_va.0 + 4095) / 4096,
            r.perm() == map_perm,
            end_va.is_valid() ==> r.wf(),
    {
        let start_vpn = start_va.floor();
        let end_vpn = end_va.ceil();
        proof {
            if end_va.is_valid() {
                assert(((end_va.0 + 4095) / 4096) * 1024 <= end_va.0 + 4096) by (nonlinear_arith)
                    requires
                        end_va.0 + 4096 <= usize::MAX,
                ;
            }
        }
        MapArea { vpn_range: (start_vpn, end_vpn), map_perm }
    }

    /// Maps each page of the area to the frame of the same number in
    /// `page_table`, with the area's permissions; pages already mapped keep
    /// their mapping. Frames for the missing nodes come from `allocator`.
    pub fn map(&self, page_table: &mut PageTable, allocator: &mut FrameAllocator)
        requires
            self.wf(),
            old(page_table).wf(),
            allocator_fits(old(allocator)@),
            old(page_table).owns_no_free_frame(old(allocator)@),
            old(allocator)@.available() >= frames_needed_range(
                old(page_table).node_paths(),
                self.start(),
                self.end(),
            ),
        ensures
            final(page_table).wf(),
            final(page_table).root() == old(page_table).root(),
            final(page_table)@ == identity_mapped(
                old(page_table)@,
                self.start(),
                self.end(),
                PageTableEntryFlags(pte_flags_of(self.perm().0)),
            ),
            final(page_table).node_paths() == nodes_after_range(
                old(page_table).node_paths(),
                self.start(),
                self.end(),
            ),
            final(allocator)@ == old(allocator)@.after_allocs(
                frames_needed_range(old(page_table).node_paths(), self.start(), self.end()),
            ),
            allocator_fits(final(allocator)@),
            final(page_table).owns_no_free_frame(final(allocator)@),
    {
        let flags = self.map_perm.to_pte_flags();
        let start = self.vpn_range.0.0;
        let end = self.vpn_range.1.0;
        let ghost n0 = page_table.node_paths();
        let ghost a0 = allocator@;
        let ghost m0 = page_table@;
        let mut vpn = start;
        proof {
            assert(identity_mapped(m0, start as nat, start as nat, flags) =~= m0);
            lemma_after_allocs_add(allocator@, 0, frames_needed_range(n0, start as nat, end as nat));
            reveal_with_fuel(FrameAllocatorModel::after_allocs, 1);
        }
        while vpn < end
            invariant
                start <= vpn,
                start <= end ==> vpn <= end,
                start > end ==> vpn == start,
                end <= vpn_limit(),
                end * 1024 <= usize::MAX,
                flags.0 == pte_flags_of(self.perm().0),
                page_table.wf(),
                page_table.root() == old(page_table).root(),
                page_table@ == identity_mapped(m0, start as nat, vpn as nat, flags),
                nodes_after_range(page_table.node_paths(), vpn as nat, end as nat) == nodes_after_range(
                    n0,
                    start as nat,
                    end as nat,
                ),
                allocator@.after_allocs(
                    frames_needed_range(page_table.node_paths(), vpn as nat, end as nat),
                ) == a0.after_allocs(frames_needed_range(n0, start as nat, end as nat)),
                allocator@.available() >= frames_needed_range(
                    page_table.node_paths(),
                    vpn as nat,
                    end as nat,
                ),
                allocator_fits(allocator@),
                page_table.owns_no_free_frame(allocator@),
            decreases end - vpn,
        {
            let ghost nodes = page_table.node_paths();
            let ghost before = page_table@;
            let ghost alloc_before = allocator@;
            let ghost needed = frames_needed(nodes, vpn as nat);
            proof {
                lemma_after_allocs_add(
                    allocator@,
                    needed,
                    frames_needed_range(nodes_after_map(nodes, vpn as nat), vpn as nat + 1, end as nat),
                );
            }
            page_table.map(VirtPageNum::new(vpn), PhysPageNum::new(vpn), flags, allocator);
            proof {
                lemma_after_allocs(alloc_before, needed);
                assert((vpn + 1) as nat == vpn as nat + 1);
                assert(page_table@ =~= identity_mapped(m0, start as nat, (vpn + 1) as nat, flags));
            }
            vpn = vpn + 1;
        }
        proof {
            if start > end {
                assert(identity_mapped(m0, start as nat, start as nat, flags) =~= identity_mapped(
                    m0,
                    start as nat,
                    end as nat,
                    flags,
                ));
            }
            reveal_with_fuel(FrameAllocatorModel::after_allocs, 1);
        }
    }
}

} // verus!

verus! {

/// A section of an address space: its first and last-plus-one virtual
/// addresses and its permission bits.
pub type Section = (usize, usize, u8);

/// The pages of a section: from the page of its first address to the first
/// page at or after its end.
pub open spec fn section_pages(sec: Section) -> (nat, nat) {
    ((sec.0 / 4096) as nat, ((sec.1 + 4095) / 4096) as nat)
}

/// The mappings `m` after mapping each of the sections `secs` in turn.
pub open spec fn mapped_sections(m: Map<usize, PageTableEntry>, secs: Seq<Section>) -> Map<
    usize,
    PageTableEntry,
>
    decreases secs.len(),
{
    if secs.len() == 0 {
        m
    } else {
        identity_mapped(
            mapped_sections(m, secs.drop_last()),
            section_pages(secs.last()).0,
            section_pages(secs.last()).1,
            PageTableEntryFlags(pte_flags_of(secs.last().2)),
        )
    }
}

/// The nodes of a table after mapping each of the sections `secs` in turn.
pub open spec fn nodes_after_sections(nodes: Set<Seq<usize>>, secs: Seq<Section>) -> Set<Seq<usize>>
    decreases secs.len(),
{
    if secs.len() == 0 {
        nodes
    } else {
        nodes_after_range(
            nodes_after_sections(nodes, secs.drop_last()),
            section_pages(secs.last()).0,
            section_pages(secs.last()).1,
        )
    }
}

/// How many frames mapping each of the sections `secs` in turn allocates.
pub open spec fn frames_needed_sections(nodes: Set<Seq<usize>>, secs: Seq<Section>) -> nat
    decreases secs.len(),
{
    if secs.len() == 0 {
        0
    } else {
        frames_needed_sections(nodes, secs.drop_last()) + frames_needed_range(
            nodes_after_sections(nodes, secs.drop_last()),
            section_pages(secs.last()).0,
            section_pages(secs.last()).1,
        )
    }
}

/// Mapping a longer prefix of sections never needs fewer frames.
proof fn lemma_needed_prefix_mono(nodes: Set<Seq<usize>>, secs: Seq<Section>, i: int, j: int)
    requires
        0 <= i <= j <= secs.len(),
    ensures
        frames_needed_sections(nodes, secs.take(i)) <= frames_needed_sections(nodes, secs.take(j)),
    decreases j - i,
{
    if i < j {
        lemma_needed_prefix_mono(nodes, secs, i, j - 1);
        assert(secs.take(j).drop_last() =~= secs.take(j - 1));
    }
}

/// The addresses of the kernel image and of the end of physical memory that
/// the kernel's own address space maps.
pub struct KernelLayout {
    pub text_start: usize,
    pub text_end: usize,
    pub rodata_start: usize,
    pub rodata_end: usize,
    pub data_start: usize,
    pub data_end: usize,
    pub bss_start: usize,
    pub bss_end: usize,
    pub kernel_end: usize,
}

/// The last-plus-one address of the physical memory that the kernel maps.
pub const KERNEL_MAP_END: usize = 0x8880_0000;

impl KernelLayout {
    /// The sections of the kernel's address space, in the order they are
    /// mapped: text (read, execute), read-only data (read), data (read,
    /// write), the same data range once more where the zeroed data would
    /// stand, and the rest of physical memory (read, write).
    pub open spec fn sections(self) -> Seq<Section> {
        seq![
            (self.text_start, self.text_end, 10u8),
            (self.rodata_start, self.rodata_end, 2u8),
            (self.data_start, self.data_end, 6u8),
            (self.data_start, self.data_end, 6u8),
            (self.kernel_end, 0x8880_0000usize, 6u8),
        ]
    }

    /// Whether every address of the layout is a virtual address of the
    /// Sv39 space, with room for rounding up to a page.
    pub open spec fn is_valid(self) -> bool {
        &&& forall|i: int|
            0 <= i < 5 ==> (#[trigger] self.sections()[i]).0 < crate::address::va_limit()
                && self.sections()[i].1 < crate::address::va_limit() && self.sections()[i].1 + 4096
                <= usize::MAX
    }
}

/// Whether the page `v` lies in the pages that hold the addresses `start`
/// to `end`: from the page of `start` to the first page at or after `end`.
pub open spec fn in_pages(v: usize, start: usize, end: usize) -> bool {
    start / 4096 <= v < (end + 4095) / 4096
}

/// Whether `m` is the kernel's address space for `layout`: exactly the pages
/// of the text, read-only data and data ranges and those from the kernel's
/// end to the end of mapped physical memory are mapped, each to the frame of
/// the same number; text is valid, readable and executable (flags 11), read-only
/// data valid and readable (3), data and the physical memory after the
/// kernel valid, readable and writable (7); where ranges overlap the first
/// of these wins.
pub open spec fn kernel_space_maps(layout: KernelLayout, m: Map<usize, PageTableEntry>) -> bool {
    forall|v: usize|
        {
            let t = in_pages(v, layout.text_start, layout.text_end);
            let ro = in_pages(v, layout.rodata_start, layout.rodata_end);
            let d = in_pages(v, layout.data_start, layout.data_end);
            let pm = in_pages(v, layout.kernel_end, 0x8880_0000usize);
            &&& #[trigger] m.contains_key(v) == (t || ro || d || pm)
            &&& t ==> m[v] == PageTableEntry { bits: (v << 10usize) | 11usize }
            &&& !t && ro ==> m[v] == PageTableEntry { bits: (v << 10usize) | 3usize }
            &&& !t && !ro && (d || pm) ==> m[v] == PageTableEntry { bits: (v << 10usize) | 7usize }
        }
}

/// Mapping the kernel's sections in turn gives the kernel's address space:
/// text executable, read-only data readable, data and the physical memory
/// after the kernel readable and writable, each page to itself.
pub proof fn lemma_kernel_mappings(layout: KernelLayout)
    ensures
        kernel_space_maps(layout, mapped_sections(Map::empty(), layout.sections())),
{
    let secs = layout.sections();
    let s4 = secs.drop_last();
    let s3 = s4.drop_last();
    let s2 = s3.drop_last();
    let s1 = s2.drop_last();
    let s0 = s1.drop_last();
    assert(s4 =~= seq![secs[0], secs[1], secs[2], secs[3]]);
    assert(s3 =~= seq![secs[0], secs[1], secs[2]]);
    assert(s2 =~= seq![secs[0], secs[1]]);
    assert(s1 =~= seq![secs[0]]);
    assert(s0 =~= Seq::<Section>::empty());
    let e = Map::<usize, PageTableEntry>::empty();
    let m1 = mapped_sections(e, s1);
    let m2 = mapped_sections(e, s2);
    let m3 = mapped_sections(e, s3);
    let m4 = mapped_sections(e, s4);
    let m5 = mapped_sections(e, secs);
    assert(mapped_sections(e, s0) == e);
    assert(s1.last() == secs[0] && s2.last() == secs[1] && s3.last() == secs[2] && s4.last() == secs[3]
        && secs.last() == secs[4]);
    assert(pte_flags_of(10u8) | 1u8 == 11u8) by (bit_vector);
    assert(pte_flags_of(2u8) | 1u8 == 3u8) by (bit_vector);
    assert(pte_flags_of(6u8) | 1u8 == 7u8) by (bit_vector);
    assert forall|v: usize|
        {
            let t = in_pages(v, layout.text_start, layout.text_end);
            let ro = in_pages(v, layout.rodata_start, layout.rodata_end);
            let d = in_pages(v, layout.data_start, layout.data_end);
            let pm = in_pages(v, layout.kernel_end, 0x8880_0000usize);
            &&& #[trigger] m5.contains_key(v) == (t || ro || d || pm)
            &&& t ==> m5[v] == PageTableEntry { bits: (v << 10usize) | 11usize }
            &&& !t && ro ==> m5[v] == PageTableEntry { bits: (v << 10usize) | 3usize }
            &&& !t && !ro && (d || pm) ==> m5[v] == PageTableEntry { bits: (v << 10usize) | 7usize }
        } by {
        assert(m1.contains_key(v) == in_pages(v, layout.text_start, layout.text_end));
        assert(m2.contains_key(v) == (m1.contains_key(v) || in_pages(v, layout.rodata_start, layout.rodata_end)));
        assert(m3.contains_key(v) == (m2.contains_key(v) || in_pages(v, layout.data_start, layout.data_end)));
        assert(m4.contains_key(v) == m3.contains_key(v));
        assert(m5.contains_key(v) == (m4.contains_key(v) || in_pages(v, layout.kernel_end, 0x8880_0000usize)));
    }
}

/// An address space: a page table and the areas mapped in it.
pub struct MemorySet {
    page_table: PageTable,
    areas: Vec<MapArea>,
}

impl MemorySet {
    /// The space's invariant.
    pub closed spec fn wf(self) -> bool {
        self.page_table.wf()
    }

    /// The mapped pages and their leaf entries.
    pub closed spec fn mappings(self) -> Map<usize, PageTableEntry> {
        self.page_table@
    }

    /// The nodes of the page table.
    pub closed spec fn node_paths(self) -> Set<Seq<usize>> {
        self.page_table.node_paths()
    }

    /// The page number of the root of the page table.
    pub closed spec fn root(self) -> usize {
        self.page_table.root()
    }

    /// The areas, in the order they were added.
    pub closed spec fn area_list(self) -> Seq<MapArea> {
        self.areas@
    }

    /// Whether none of the space's page table frames is free in `a`.
    pub closed spec fn owns_no_free_frame(self, a: FrameAllocatorModel) -> bool {
        self.page_table.owns_no_free_frame(a)
    }

    /// The page table of the space.
    pub fn page_table(&self) -> (r: &PageTable)
        ensures
            r@ == self.mappings(),
            r.wf() == self.wf(),
            r.root() == self.root(),
    {
        &self.page_table
    }

    /// An empty space whose page table root is a fresh frame from
    /// `allocator`, which must have one.
    pub fn new(allocator: &mut FrameAllocator) -> (r: Self)
        requires
            allocator_fits(old(allocator)@),
            old(allocator)@.available() > 0,
        ensures
            r.wf(),
            r.mappings() == Map::<usize, PageTableEntry>::empty(),
            r.area_list() == Seq::<MapArea>::empty(),
            r.node_paths() == set![Seq::<usize>::empty()],
            r.root() == old(allocator)@.next_frame(),
            final(allocator)@ == old(allocator)@.after_alloc(),
            allocator_fits(final(allocator)@),
            r.owns_no_free_frame(final(allocator)@),
    {
        let r = MemorySet { page_table: PageTable::new(allocator), areas: Vec::new() };
        assert(r.area_list() =~= Seq::<MapArea>::empty());
        r
    }

    /// Maps the area and adds it to the space. Copying initial data into the
    /// area is not supported: `data` must be `None`.
    fn push(&mut self, map_area: MapArea, data: Option<&[u8]>, allocator: &mut FrameAllocator)
        requires
            data is None,
            map_area.wf(),
            old(self).wf(),
            allocator_fits(old(allocator)@),
            old(self).owns_no_free_frame(old(allocator)@),
            old(allocator)@.available() >= frames_needed_range(
                old(self).node_paths(),
                map_area.start(),
                map_area.end(),
            ),
        ensures
            final(self).wf(),
            final(self).root() == old(self).root(),
            final(self).mappings() == identity_mapped(
                old(self).mappings(),
                map_area.start(),
                map_area.end(),
                PageTableEntryFlags(pte_flags_of(map_area.perm().0)),
            ),
            final(self).node_paths() == nodes_after_range(
                old(self).node_paths(),
                map_area.start(),
                map_area.end(),
            ),
            final(self).area_list() == old(self).area_list().push(map_area),
            final(allocator)@ == old(allocator)@.after_allocs(
                frames_needed_range(old(self).node_paths(), map_area.start(), map_area.end()),
            ),
            allocator_fits(final(allocator)@),
            final(self).owns_no_free_frame(final(allocator)@),
    {
        map_area.map(&mut self.page_table, allocator);
        self.areas.push(map_area);
    }

    /// The value of the `satp` register that switches translation to this
    /// space: Sv39 mode and the root page number shifted right by twelve.
    pub fn activate(&self) -> (r: u64)
        ensures
            r == 0x8000_0000_0000_0000u64 | ((self.root() as u64) >> 12u64),
    {
        let root = self.page_table.root_ppn().0 as u64;
        let r = (8u64 << 60u64) | (root >> 12u64);
        assert((8u64 << 60u64) == 0x8000_0000_0000_0000u64) by (bit_vector);
        r
    }

    /// The area of the kernel section `i` of `layout`.
    fn kernel_area(layout: &KernelLayout, i: usize) -> (r: MapArea)
        requires
            i < 5,
            layout.is_valid(),
        ensures
            r.start() == section_pages(layout.sections()[i as int]).0,
            r.end() == section_pages(layout.sections()[i as int]).1,
            r.perm().0 == layout.sections()[i as int].2,
            r.wf(),
    {
        proof {
            assert(layout.sections()[i as int] == layout.sections()[i as int]);
            assert(2u8 | 8u8 == 10u8) by (bit_vector);
            assert(2u8 | 4u8 == 6u8) by (bit_vector);
        }
        if i == 0 {
            MapArea::new(
                VirtAddr::new(layout.text_start),
                VirtAddr::new(layout.text_end),
                MapPermission::R() | MapPermission::X(),
            )
        } else if i == 1 {
            MapArea::new(
                VirtAddr::new(layout.rodata_start),
                VirtAddr::new(layout.rodata_end),
                MapPermission::R(),
            )
        } else if i == 2 || i == 3 {
            MapArea::new(
                VirtAddr::new(layout.data_start),
                VirtAddr::new(layout.data_end),
                MapPermission::R() | MapPermission::W(),
            )
        } else {
            MapArea::new(
                VirtAddr::new(layout.kernel_end),
                VirtAddr::new(KERNEL_MAP_END),
                MapPermission::R() | MapPermission::W(),
            )
        }
    }

    /// The kernel's own address space: each section of `layout` mapped to
    /// the same physical pages with its permissions. The page table's
    /// frames come from `allocator`.
    pub fn new_kernel(allocator: &mut FrameAllocator, layout: &KernelLayout) -> (r: Self)
        requires
            layout.is_valid(),
            allocator_fits(old(allocator)@),
            old(allocator)@.available() >= 1 + frames_needed_sections(
                set![Seq::<usize>::empty()],
                layout.sections(),
            ),
        ensures
            r.wf(),
            r.mappings() == mapped_sections(Map::empty(), layout.sections()),
            kernel_space_maps(*layout, r.mappings()),
            r.area_list().len() == 5,
            forall|j: int|
                0 <= j < 5 ==> {
                    &&& (#[trigger] r.area_list()[j]).start() == section_pages(layout.sections()[j]).0
                    &&& r.area_list()[j].end() == section_pages(layout.sections()[j]).1
                    &&& r.area_list()[j].perm().0 == layout.sections()[j].2
                },
            r.root() == old(allocator)@.next_frame(),
            final(allocator)@ == old(allocator)@.after_allocs(
                1 + frames_needed_sections(set![Seq::<usize>::empty()], layout.sections()),
            ),
            allocator_fits(final(allocator)@),
            r.owns_no_free_frame(final(allocator)@),
    {
        let ghost secs = layout.sections();
        let ghost n0 = set![Seq::<usize>::empty()];
        let ghost a0 = old(allocator)@;
        let mut memory_set = Self::new(allocator);
        let ghost a1 = allocator@;
        proof {
            assert(secs.take(0) =~= Seq::<Section>::empty());
            reveal_with_fuel(FrameAllocatorModel::after_allocs, 1);
        }
        let mut i: usize = 0;
        while i < 5
            invariant
                i <= 5,
                secs == layout.sections(),
                layout.is_valid(),
                memory_set.wf(),
                memory_set.root() == a0.next_frame(),
                memory_set.area_list().len() == i,
                forall|j: int|
                    0 <= j < i ==> {
                        &&& (#[trigger] memory_set.area_list()[j]).start() == section_pages(secs[j]).0
                        &&& memory_set.area_list()[j].end() == section_pages(secs[j]).1
                        &&& memory_set.area_list()[j].perm().0 == secs[j].2
                    },
                memory_set.mappings() == mapped_sections(Map::empty(), secs.take(i as int)),
                memory_set.node_paths() == nodes_after_sections(n0, secs.take(i as int)),
                allocator@ == a1.after_allocs(frames_needed_sections(n0, secs.take(i as int))),
                a1.available() >= frames_needed_sections(n0, secs),
                a1.wf(),
                allocator_fits(allocator@),
                memory_set.owns_no_free_frame(allocator@),
            decreases 5 - i,
        {
            let area = Self::kernel_area(layout, i);
            proof {
                let pre = secs.take(i as int);
                let post = secs.take(i as int + 1);
                assert(post.drop_last() =~= pre);
                assert(post.last() == secs[i as int]);
                lemma_needed_prefix_mono(n0, secs, i as int + 1, 5);
                assert(secs.take(5) =~= secs);
                lemma_after_allocs(a1, frames_needed_sections(n0, pre));
            }
            memory_set.push(area, None, allocator);
            proof {
                let pre = secs.take(i as int);
                let post = secs.take(i as int + 1);
                lemma_after_allocs_add(
                    a1,
                    frames_needed_sections(n0, pre),
                    frames_needed_range(
                        nodes_after_sections(n0, pre),
                        section_pages(secs[i as int]).0,
                        section_pages(secs[i as int]).1,
                    ),
                );
            }
            i = i + 1;
        }
        proof {
            assert(secs.take(5) =~= secs);
            lemma_after_allocs_add(a0, 1, frames_needed_sections(n0, secs));
            reveal_with_fuel(FrameAllocatorModel::after_allocs, 2);
        }
        proof {
            lemma_kernel_mappings(*layout);
        }
        memory_set
    }
}


/// After an area is mapped, each of its pages that was not mapped before
/// translates to the frame of the same number, valid, with the area's flags;
/// pages mapped before keep their entries.
pub proof fn lemma_identity_mapped_translates(
    m: Map<usize, PageTableEntry>,
    start: nat,
    end: nat,
    flags: PageTableEntryFlags,
    v: usize,
)
    requires
        start <= v < end,
        crate::page_table::ppn_fits_entry(v),
    ensures
        identity_mapped(m, start, end, flags).contains_key(v),
        !m.contains_key(v) ==> identity_mapped(m, start, end, flags)[v].spec_ppn() == v,
        !m.contains_key(v) ==> identity_mapped(m, start, end, flags)[v].spec_valid(),
        !m.contains_key(v) ==> identity_mapped(m, start, end, flags)[v].spec_flags() == flags.0 | 1u8,
        m.contains_key(v) ==> identity_mapped(m, start, end, flags)[v] == m[v],
{
    crate::page_table::lemma_leaf_entry_fields(PhysPageNum(v), flags);
}


/// Which nodes a page table holds, as one flag per possible node at level
/// one and at level two.
struct NodeBitmap {
    level1: Vec<bool>,
    level2: Vec<bool>,
}

/// The index of the level-two node `[a, b]` in the level-two flags.
spec fn slot(a: int, b: int) -> int {
    a * 512 + b
}

proof fn lemma_slot(a: int, b: int, c: int, d: int)
    requires
        0 <= a < 512,
        0 <= b < 512,
        0 <= c < 512,
        0 <= d < 512,
    ensures
        0 <= slot(a, b) < 262144,
        slot(a, b) == slot(c, d) ==> a == c && b == d,
{
    assert(0 <= slot(a, b) < 262144) by (nonlinear_arith)
        requires
            0 <= a < 512,
            0 <= b < 512,
    ;
    assert(slot(a, b) == slot(c, d) ==> a == c && b == d) by (nonlinear_arith)
        requires
            0 <= a < 512,
            0 <= b < 512,
            0 <= c < 512,
            0 <= d < 512,
    ;
}

impl NodeBitmap {
    spec fn wf(self) -> bool {
        &&& self.level1@.len() == 512
        &&& self.level2@.len() == 262144
        &&& forall|a: int, b: int|
            0 <= a < 512 && 0 <= b < 512 && #[trigger] self.level2@[slot(a, b)] ==> self.level1@[a]
    }

    spec fn nodes(self) -> Set<Seq<usize>> {
        Set::new(
            |p: Seq<usize>|
                p.len() == 0 || (p.len() == 1 && p[0] < 512 && self.level1@[p[0] as int]) || (p.len()
                    == 2 && p[0] < 512 && p[1] < 512 && self.level2@[slot(p[0] as int, p[1] as int)]),
        )
    }

    /// The nodes of a fresh page table: the root alone.
    fn new() -> (r: Self)
        ensures
            r.wf(),
            r.nodes() == set![Seq::<usize>::empty()],
    {
        let mut level1: Vec<bool> = Vec::new();
        let mut i: usize = 0;
        while i < 512
            invariant
                i <= 512,
                level1@.len() == i,
                forall|j: int| 0 <= j < i ==> !#[trigger] level1@[j],
            decreases 512 - i,
        {
            level1.push(false);
            i = i + 1;
        }
        let mut level2: Vec<bool> = Vec::new();
        let mut i: usize = 0;
        while i < 262144
            invariant
                i <= 262144,
                level2@.len() == i,
                forall|j: int| 0 <= j < i ==> !#[trigger] level2@[j],
            decreases 262144 - i,
        {
            level2.push(false);
            i = i + 1;
        }
        let r = NodeBitmap { level1, level2 };
        proof {
            assert forall|a: int, b: int|
                0 <= a < 512 && 0 <= b < 512 && #[trigger] r.level2@[slot(a, b)] implies r.level1@[a] by {
                lemma_slot(a, b, a, b);
            }
            assert forall|p: Seq<usize>| r.nodes().contains(p) <==> p == Seq::<usize>::empty() by {
                if p.len() == 2 && p[0] < 512 && p[1] < 512 {
                    lemma_slot(p[0] as int, p[1] as int, 0, 0);
                }
                if p.len() == 0 {
                    assert(p =~= Seq::<usize>::empty());
                }
            }
            assert(r.nodes() =~= set![Seq::<usize>::empty()]);
        }
        r
    }

    /// Records the nodes that mapping the pages `start` to `end` (excluded)
    /// adds, and returns how many frames that takes.
    fn count_range(&mut self, start: usize, end: usize) -> (r: usize)
        requires
            old(self).wf(),
            end <= vpn_limit(),
        ensures
            final(self).wf(),
            r == frames_needed_range(old(self).nodes(), start as nat, end as nat),
            final(self).nodes() == nodes_after_range(old(self).nodes(), start as nat, end as nat),
            r <= 2 * (if start < end { end - start } else { 0 }),
    {
        let ghost n0 = self.nodes();
        let mut count: usize = 0;
        let mut vpn = start;
        while vpn < end
            invariant
                self.wf(),
                end <= vpn_limit(),
                start <= vpn,
                start <= end ==> vpn <= end,
                start > end ==> vpn == start,
                count <= 2 * (vpn - start),
                count + frames_needed_range(self.nodes(), vpn as nat, end as nat) == frames_needed_range(
                    n0,
                    start as nat,
                    end as nat,
                ),
                nodes_after_range(self.nodes(), vpn as nat, end as nat) == nodes_after_range(
                    n0,
                    start as nat,
                    end as nat,
                ),
            decreases end - vpn,
        {
            let ghost before = self.nodes();
            let ghost v = vpn as nat;
            let i0 = vpn % 512;
            let i1 = (vpn / 512) % 512;
            proof {
                lemma_slot(i0 as int, i1 as int, i0 as int, i1 as int);
                assert(path1(v) =~= seq![i0]);
                assert(path2(v) =~= seq![i0, i1]);
            }
            let j = i0 * 512 + i1;
            let added: usize;
            if !self.level1[i0] {
                self.level1.set(i0, true);
                self.level2.set(j, true);
                added = 2;
            } else if !self.level2[j] {
                self.level2.set(j, true);
                added = 1;
            } else {
                added = 0;
            }
            proof {
                assert(!before.contains(path1(v)) ==> !before.contains(path2(v)));
                assert(added == frames_needed(before, v));
                assert forall|a: int, b: int|
                    0 <= a < 512 && 0 <= b < 512 && #[trigger] self.level2@[slot(a, b)] implies self.level1@[a] by {
                    lemma_slot(a, b, i0 as int, i1 as int);
                }
                assert forall|p: Seq<usize>| #[trigger] self.nodes().contains(p) <==> nodes_after_map(before, v).contains(p) by {
                    if p.len() == 2 && p[0] < 512 && p[1] < 512 {
                        lemma_slot(p[0] as int, p[1] as int, i0 as int, i1 as int);
                        if p[0] == i0 && p[1] == i1 {
                            assert(p =~= path2(v));
                        }
                    }
                    if p.len() == 1 && p[0] == i0 {
                        assert(p =~= path1(v));
                    }
                }
                assert(self.nodes() =~= nodes_after_map(before, v));
            }
            count = count + added;
            vpn = vpn + 1;
        }
        count
    }
}

impl KernelLayout {
    /// Section `i` of the layout.
    fn section(&self, i: usize) -> (r: Section)
        requires
            i < 5,
        ensures
            r == self.sections()[i as int],
    {
        if i == 0 {
            (self.text_start, self.text_end, 10)
        } else if i == 1 {
            (self.rodata_start, self.rodata_end, 2)
        } else if i == 2 || i == 3 {
            (self.data_start, self.data_end, 6)
        } else {
            (self.kernel_end, KERNEL_MAP_END, 6)
        }
    }

    /// How many frames building the kernel's address space from this layout
    /// takes: the root, and the nodes that mapping the sections in turn adds.
    pub fn frames_needed(&self) -> (r: usize)
        requires
            self.is_valid(),
        ensures
            r == 1 + frames_needed_sections(set![Seq::<usize>::empty()], self.sections()),
    {
        let ghost secs = self.sections();
        let ghost n0 = set![Seq::<usize>::empty()];
        let mut nodes = NodeBitmap::new();
        let mut count: usize = 1;
        let mut i: usize = 0;
        while i < 5
            invariant
                i <= 5,
                secs == self.sections(),
                self.is_valid(),
                nodes.wf(),
                nodes.nodes() == nodes_after_sections(n0, secs.take(i as int)),
                count == 1 + frames_needed_sections(n0, secs.take(i as int)),
                count <= 1 + 0x1000_0000 * i,
            decreases 5 - i,
        {
            let sec = self.section(i);
            let start = sec.0 / 4096;
            let end = (sec.1 + 4095) / 4096;
            proof {
                assert(self.sections()[i as int] == sec);
                assert(sec.1 < crate::address::va_limit());
                assert(end <= vpn_limit());
                let pre = secs.take(i as int);
                let post = secs.take(i as int + 1);
                assert(post.drop_last() =~= pre);
                assert(post.last() == secs[i as int]);
            }
            let added = nodes.count_range(start, end);
            count = count + added;
            i = i + 1;
        }
        proof {
            assert(secs.take(5) =~= secs);
        }
        count
    }
}

} // verus!

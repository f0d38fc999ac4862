use lib::address::{PhysPageNum, VirtAddr, VirtPageNum};
use lib::frame_allocator::FrameAllocator;
use lib::memory_set::{KernelLayout, MapArea, MapPermission, MemorySet};
use lib::page_table::PageTable;

#[test]
fn permission_bits() {
    assert_eq!(MapPermission::R().0, 2);
    assert_eq!(MapPermission::W().0, 4);
    assert_eq!(MapPermission::X().0, 8);
    assert_eq!(MapPermission::U().0, 16);
    assert_eq!((MapPermission::R() | MapPermission::X()).0, 10);
}

#[test]
fn contains_means_a_shared_bit() {
    let rw = MapPermission::R() | MapPermission::W();
    assert!(rw.contains(MapPermission::R()));
    assert!(rw.contains(MapPermission::W()));
    assert!(!rw.contains(MapPermission::X()));
    assert!(rw.contains(MapPermission::W() | MapPermission::X()));
}

#[test]
fn permissions_to_entry_flags() {
    assert_eq!((MapPermission::R() | MapPermission::X()).to_pte_flags().0, 11);
    assert_eq!(MapPermission::R().to_pte_flags().0, 3);
    assert_eq!((MapPermission::R() | MapPermission::W()).to_pte_flags().0, 7);
    assert_eq!(MapPermission::U().to_pte_flags().0, 17);
    assert_eq!(MapPermission(0).to_pte_flags().0, 1);
    assert_eq!(MapPermission(0xff).to_pte_flags().0, 0x1f);
}

#[test]
fn area_maps_pages_to_themselves() {
    let mut alloc = FrameAllocator::new(PhysPageNum::new(0x90000), PhysPageNum::new(0x90100));
    let mut pt = PageTable::new(&mut alloc);
    let area = MapArea::new(VirtAddr::new(0x8020_0800), VirtAddr::new(0x8020_2001), MapPermission::R());
    area.map(&mut pt, &mut alloc);
    for v in [0x80200usize, 0x80201, 0x80202] {
        let e = pt.translate(VirtPageNum::new(v)).unwrap();
        assert_eq!(e.ppn().0, v);
        assert_eq!(e.bits & 0xff, 3);
    }
    assert!(pt.translate(VirtPageNum::new(0x80203)).is_none());
    assert!(pt.translate(VirtPageNum::new(0x801ff)).is_none());
    // three distinct root indexes: two frames each, after the root
    assert_eq!(alloc.allocate().0, 0x90007);
}

#[test]
fn area_keeps_pages_already_mapped() {
    let mut alloc = FrameAllocator::new(PhysPageNum::new(0x90000), PhysPageNum::new(0x90100));
    let mut pt = PageTable::new(&mut alloc);
    pt.map(VirtPageNum::new(0x10), PhysPageNum::new(0x55), lib::page_table::PageTableEntryFlags::W(), &mut alloc);
    let area = MapArea::new(VirtAddr::new(0x10000), VirtAddr::new(0x12000), MapPermission::X());
    area.map(&mut pt, &mut alloc);
    assert_eq!(pt.translate(VirtPageNum::new(0x10)).unwrap().ppn().0, 0x55);
    assert_eq!(pt.translate(VirtPageNum::new(0x11)).unwrap().ppn().0, 0x11);
    assert_eq!(pt.translate(VirtPageNum::new(0x11)).unwrap().bits & 0xff, 9);
}

#[test]
fn empty_area_maps_nothing() {
    let mut alloc = FrameAllocator::new(PhysPageNum::new(0x90000), PhysPageNum::new(0x90100));
    let mut pt = PageTable::new(&mut alloc);
    let area = MapArea::new(VirtAddr::new(0x5000), VirtAddr::new(0x3000), MapPermission::R());
    area.map(&mut pt, &mut alloc);
    assert!(pt.translate(VirtPageNum::new(4)).is_none());
    assert_eq!(alloc.allocate().0, 0x90001);
}

fn small_layout() -> KernelLayout {
    KernelLayout {
        text_start: 0x8020_0000,
        text_end: 0x8020_2000,
        rodata_start: 0x8020_2000,
        rodata_end: 0x8020_3000,
        data_start: 0x8020_3000,
        data_end: 0x8020_4000,
        bss_start: 0x8020_4000,
        bss_end: 0x8020_5000,
        kernel_end: 0x887f_f000,
    }
}

#[test]
fn kernel_space_maps_its_sections() {
    let mut alloc = FrameAllocator::new(PhysPageNum::new(0x90000), PhysPageNum::new(0x90100));
    let ks = MemorySet::new_kernel(&mut alloc, &small_layout());
    let pt = ks.page_table();
    assert_eq!(pt.root_ppn.0, 0x90000);
    let text = pt.translate(VirtPageNum::new(0x80201)).unwrap();
    assert_eq!(text.ppn().0, 0x80201);
    assert_eq!(text.bits & 0xff, 11);
    assert_eq!(pt.translate(VirtPageNum::new(0x80202)).unwrap().bits & 0xff, 3);
    assert_eq!(pt.translate(VirtPageNum::new(0x80203)).unwrap().bits & 0xff, 7);
    assert_eq!(pt.translate(VirtPageNum::new(0x887ff)).unwrap().ppn().0, 0x887ff);
    // the zeroed-data range is not mapped: the data range stands in its place
    assert!(pt.translate(VirtPageNum::new(0x80204)).is_none());
    assert!(pt.translate(VirtPageNum::new(0x88800)).is_none());
    // root and two frames for each of the five root indexes in use
    assert_eq!(alloc.allocate().0, 0x9000b);
}

#[test]
fn activate_gives_sv39_satp() {
    let mut alloc = FrameAllocator::new(PhysPageNum::new(0x90000), PhysPageNum::new(0x90100));
    let ms = MemorySet::new(&mut alloc);
    assert_eq!(ms.activate(), 0x8000_0000_0000_0000u64 | 0x90);
    assert!(ms.page_table().translate(VirtPageNum::new(1)).is_none());
}

#[test]
fn kernel_frames_needed_matches_what_building_takes() {
    let layout = small_layout();
    assert_eq!(layout.frames_needed(), 11);
    let mut alloc = FrameAllocator::new(PhysPageNum::new(0x90000), PhysPageNum::new(0x9000b));
    let ks = MemorySet::new_kernel(&mut alloc, &layout);
    assert_eq!(alloc.available(), 0);
    assert!(ks.page_table().translate(VirtPageNum::new(0x80200)).is_some());
}

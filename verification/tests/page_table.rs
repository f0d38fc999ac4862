use lib::address::{PhysPageNum, VirtPageNum};
use lib::frame_allocator::FrameAllocator;
use lib::page_table::{PageTable, PageTableEntry, PageTableEntryFlags};

#[test]
fn entry_encodes_page_and_flags() {
    let flags = PageTableEntryFlags::V() | PageTableEntryFlags::R() | PageTableEntryFlags::W();
    assert_eq!(flags.0, 7);
    let e = PageTableEntry::new(PhysPageNum::new(0x80000), flags);
    assert_eq!(e.bits, (0x80000 << 10) | 7);
    assert!(e.is_valid());
    assert_eq!(e.ppn().0, 0x80000);
}

#[test]
fn entry_without_valid_flag_is_invalid() {
    let e = PageTableEntry::new(PhysPageNum::new(0x1234), PageTableEntryFlags::R());
    assert!(!e.is_valid());
    assert_eq!(e.ppn().0, 0x1234);
    assert!(!PageTableEntry { bits: 0 }.is_valid());
}

#[test]
fn flag_values() {
    assert_eq!(PageTableEntryFlags::V().0, 1);
    assert_eq!(PageTableEntryFlags::R().0, 2);
    assert_eq!(PageTableEntryFlags::W().0, 4);
    assert_eq!(PageTableEntryFlags::X().0, 8);
    assert_eq!(PageTableEntryFlags::U().0, 16);
    assert_eq!(PageTableEntryFlags::G().0, 32);
    assert_eq!(PageTableEntryFlags::A().0, 64);
    assert_eq!(PageTableEntryFlags::D().0, 128);
}

#[test]
fn new_table_takes_root_frame_and_maps_nothing() {
    let mut alloc = FrameAllocator::new(PhysPageNum::new(0x80100), PhysPageNum::new(0x80200));
    let pt = PageTable::new(&mut alloc);
    assert_eq!(pt.root_ppn.0, 0x80100);
    assert!(pt.translate(VirtPageNum::new(0)).is_none());
    assert!(pt.translate(VirtPageNum::new(0x12345)).is_none());
    assert_eq!(alloc.allocate().0, 0x80101);
}

#[test]
fn map_then_translate_then_unmap() {
    let mut alloc = FrameAllocator::new(PhysPageNum::new(0x80100), PhysPageNum::new(0x80200));
    let mut pt = PageTable::new(&mut alloc);
    let vpn = VirtPageNum::new(0x12345);
    pt.map(vpn, PhysPageNum::new(0x99999), PageTableEntryFlags::R() | PageTableEntryFlags::W(), &mut alloc);
    let e = pt.translate(vpn).unwrap();
    assert_eq!(e.ppn().0, 0x99999);
    assert_eq!(e.bits & 0xff, 7);
    assert!(e.is_valid());
    // two directory frames were taken
    assert_eq!(alloc.allocate().0, 0x80103);
    // other pages stay unmapped
    assert!(pt.translate(VirtPageNum::new(0x12344)).is_none());
    pt.unmap(vpn);
    assert!(pt.translate(vpn).is_none());
}

#[test]
fn mapping_a_mapped_page_keeps_it() {
    let mut alloc = FrameAllocator::new(PhysPageNum::new(0x80100), PhysPageNum::new(0x80200));
    let mut pt = PageTable::new(&mut alloc);
    let vpn = VirtPageNum::new(0x42);
    pt.map(vpn, PhysPageNum::new(0x100), PageTableEntryFlags::R(), &mut alloc);
    pt.map(vpn, PhysPageNum::new(0x200), PageTableEntryFlags::W(), &mut alloc);
    let e = pt.translate(vpn).unwrap();
    assert_eq!(e.ppn().0, 0x100);
    assert_eq!(e.bits & 0xff, 3);
}

#[test]
fn pages_sharing_the_low_indexes_share_nodes() {
    let mut alloc = FrameAllocator::new(PhysPageNum::new(0x80100), PhysPageNum::new(0x80200));
    let mut pt = PageTable::new(&mut alloc);
    // same lowest and middle nine bits: the same root and middle entries
    let a = VirtPageNum::new(0x12345);
    let b = VirtPageNum::new(0x12345 + 3 * 512 * 512);
    pt.map(a, PhysPageNum::new(1), PageTableEntryFlags::R(), &mut alloc);
    pt.map(b, PhysPageNum::new(2), PageTableEntryFlags::R(), &mut alloc);
    assert_eq!(pt.translate(a).unwrap().ppn().0, 1);
    assert_eq!(pt.translate(b).unwrap().ppn().0, 2);
    // root, one middle node and one leaf node
    assert_eq!(alloc.allocate().0, 0x80103);
    // a different lowest index needs two more frames
    let c = VirtPageNum::new(0x12346);
    pt.map(c, PhysPageNum::new(3), PageTableEntryFlags::R(), &mut alloc);
    assert_eq!(alloc.allocate().0, 0x80106);
    assert_eq!(pt.translate(c).unwrap().ppn().0, 3);
    assert_eq!(pt.translate(a).unwrap().ppn().0, 1);
}

#[test]
fn unmap_then_map_again() {
    let mut alloc = FrameAllocator::new(PhysPageNum::new(0x80100), PhysPageNum::new(0x80200));
    let mut pt = PageTable::new(&mut alloc);
    let vpn = VirtPageNum::new(7);
    pt.map(vpn, PhysPageNum::new(0x10), PageTableEntryFlags::R(), &mut alloc);
    pt.unmap(vpn);
    pt.map(vpn, PhysPageNum::new(0x20), PageTableEntryFlags::X(), &mut alloc);
    let e = pt.translate(vpn).unwrap();
    assert_eq!(e.ppn().0, 0x20);
    assert_eq!(e.bits & 0xff, 9);
    // no frame was taken for the second mapping
    assert_eq!(alloc.allocate().0, 0x80103);
}

#[test]
fn directory_entries_hold_only_the_valid_flag() {
    let mut alloc = FrameAllocator::new(PhysPageNum::new(0x80100), PhysPageNum::new(0x80200));
    let mut pt = PageTable::new(&mut alloc);
    pt.map(VirtPageNum::new(0x12345), PhysPageNum::new(0x99), PageTableEntryFlags::R(), &mut alloc);
    let frames = pt.frames();
    assert_eq!(frames.len(), 3);
    assert_eq!(frames[0].ppn.0, 0x80100);
    assert_eq!(frames[0].entries[0x145].bits, (0x80101 << 10) | 1);
    assert_eq!(frames[1].entries[0x91].bits, (0x80102 << 10) | 1);
    assert_eq!(frames[2].entries[0].bits, (0x99 << 10) | 3);
}

#[test]
fn mapping_a_mapped_page_with_no_frames_left() {
    let mut alloc = FrameAllocator::new(PhysPageNum::new(0x80100), PhysPageNum::new(0x80103));
    let mut pt = PageTable::new(&mut alloc);
    let vpn = VirtPageNum::new(5);
    pt.map(vpn, PhysPageNum::new(0x10), PageTableEntryFlags::R(), &mut alloc);
    assert_eq!(alloc.available(), 0);
    pt.map(vpn, PhysPageNum::new(0x20), PageTableEntryFlags::W(), &mut alloc);
    assert_eq!(pt.translate(vpn).unwrap().ppn().0, 0x10);
}

#[test]
fn new_table_holds_only_a_cleared_root() {
    let mut alloc = FrameAllocator::new(PhysPageNum::new(0x80100), PhysPageNum::new(0x80200));
    let pt = PageTable::new(&mut alloc);
    let frames = pt.frames();
    assert_eq!(frames.len(), 1);
    assert_eq!(frames[0].ppn.0, pt.root_ppn.0);
    assert_eq!(frames[0].entries.len(), 512);
    assert!(frames[0].entries.iter().all(|e| e.bits == 0));
}

#[test]
fn entry_page_number_read_back() {
    let e = PageTableEntry { bits: (1usize << 54) - 1 };
    assert_eq!(e.ppn().0, (1usize << 44) - 1);
}

use lib::address::PhysPageNum;
use lib::frame_allocator::{frame_alloc, frame_dealloc, FrameAllocator, FrameTracker};

#[test]
fn hands_out_pages_in_order() {
    let mut a = FrameAllocator::new(PhysPageNum::new(10), PhysPageNum::new(13));
    assert_eq!(a.allocate().0, 10);
    assert_eq!(a.allocate().0, 11);
    assert_eq!(a.allocate().0, 12);
}

#[test]
fn freed_page_is_handed_out_first() {
    let mut a = FrameAllocator::new(PhysPageNum::new(10), PhysPageNum::new(20));
    let p0 = a.allocate();
    let p1 = a.allocate();
    let p2 = a.allocate();
    a.dealloc(p1);
    a.dealloc(p0);
    assert_eq!(a.allocate().0, p0.0);
    assert_eq!(a.allocate().0, p1.0);
    assert_eq!(a.allocate().0, 13);
    assert_eq!(p2.0, 12);
}

#[test]
fn free_pages_let_a_full_allocator_serve_again() {
    let mut a = FrameAllocator::new(PhysPageNum::new(5), PhysPageNum::new(6));
    let p = a.allocate();
    assert_eq!(p.0, 5);
    a.dealloc(p);
    assert_eq!(a.allocate().0, 5);
}

#[test]
fn tracked_frame_is_cleared() {
    let mut a = FrameAllocator::new(PhysPageNum::new(0x80000), PhysPageNum::new(0x80010));
    let f = frame_alloc(&mut a);
    assert_eq!(f.ppn.0, 0x80000);
    assert_eq!(f.entries.len(), 512);
    assert!(f.entries.iter().all(|e| e.bits == 0));
    frame_dealloc(&mut a, f.ppn);
    assert_eq!(frame_alloc(&mut a).ppn.0, 0x80000);
    let t = FrameTracker::new(PhysPageNum::new(3));
    assert_eq!(t.ppn.0, 3);
}

#[test]
fn available_and_can_dealloc() {
    let mut a = FrameAllocator::new(PhysPageNum::new(10), PhysPageNum::new(14));
    assert_eq!(a.available(), 4);
    let p = a.allocate();
    let q = a.allocate();
    assert_eq!(a.available(), 2);
    assert!(a.can_dealloc(p));
    assert!(!a.can_dealloc(PhysPageNum::new(12)));
    a.dealloc(p);
    assert!(!a.can_dealloc(p));
    assert!(a.can_dealloc(q));
    assert_eq!(a.available(), 3);
}

#[test]
fn allocation_stops_before_the_last_page_number() {
    let top = (1usize << 44) - 2;
    let mut a = FrameAllocator::new(PhysPageNum::new(top), PhysPageNum(1usize << 45));
    assert!(a.can_allocate());
    assert_eq!(a.allocate().0, top);
    assert!(!a.can_allocate());
    a.dealloc(PhysPageNum::new(top));
    assert!(a.can_allocate());
    assert_eq!(a.allocate().0, top);
}

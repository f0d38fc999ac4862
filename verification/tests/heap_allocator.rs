use lib::heap_allocator::EarlyAllocator;

#[test]
fn bump_up_and_down() {
    let mut h = EarlyAllocator::new();
    h.init(0x1000, 0x2000);
    assert_eq!(h.inner.pos, 0x1000);
    assert_eq!(h.alloc_block(0x10), 0x1010);
    assert_eq!(h.alloc_block(0x20), 0x1030);
    h.dealloc_block(0x20);
    assert_eq!(h.inner.pos, 0x1010);
    h.dealloc_block(0x10);
    assert_eq!(h.inner.pos, 0x1000);
    assert_eq!(h.inner.start, 0x1000);
    assert_eq!(h.inner.end, 0x2000);
}

#[test]
fn fills_to_the_end() {
    let mut h = EarlyAllocator::new();
    h.init(0, 0x100);
    assert_eq!(h.alloc_block(0x100), 0x100);
    h.dealloc_block(0x100);
    assert_eq!(h.inner.pos, 0);
}

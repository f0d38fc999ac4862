use lib::address::PhysPageNum;
use lib::batch::{app_start, next};
use lib::frame_allocator::FrameAllocator;
use lib::heap_allocator::EarlyAllocator;
use lib::memory_set::KernelLayout;
use lib::mm::{init, new_frame_allocator, MEMORY_END};
use lib::utils::{Lazy, Once};

#[test]
fn batch_order() {
    assert_eq!(app_start(0), 0x8040_0000);
    assert_eq!(app_start(1), 0x8040_2000);
    assert_eq!(next(0, 3), Some(1));
    assert_eq!(next(1, 3), Some(2));
    assert_eq!(next(2, 3), None);
    assert_eq!(next(0, 1), None);
}

#[test]
fn once_keeps_the_first_value() {
    let mut o: Once<u32> = Once::new();
    assert_eq!(*o.call_once(|| 7), 7);
    assert_eq!(*o.call_once(|| 9), 7);
    let mut o: Once<u32> = Once::new();
    assert_eq!(*o.call_once(|| 9), 9);
}

#[test]
fn lazy_computes_once() {
    let mut l = Lazy::new(|| 40 + 2);
    assert_eq!(*l.force(), 42);
    assert_eq!(*l.force(), 42);
}

#[test]
fn frame_allocator_after_kernel() {
    let mut a = new_frame_allocator(0x8040_1234);
    assert_eq!(a.allocate().0, 0x80402);
    assert_eq!(MEMORY_END, 0x8800_0000);
    let mut b = new_frame_allocator(0x87ff_f000);
    assert_eq!(b.allocate().0, 0x87fff);
}

#[test]
fn memory_init() {
    let mut heap = EarlyAllocator::new();
    let mut alloc = FrameAllocator::new(PhysPageNum::new(0x90000), PhysPageNum::new(0x90100));
    let layout = KernelLayout {
        text_start: 0x8020_0000,
        text_end: 0x8020_1000,
        rodata_start: 0x8020_1000,
        rodata_end: 0x8020_2000,
        data_start: 0x8020_2000,
        data_end: 0x8020_3000,
        bss_start: 0x8020_3000,
        bss_end: 0x8020_4000,
        kernel_end: 0x887f_f000,
    };
    let (space, satp) = init(&mut heap, 0x1000, 0x2000, &mut alloc, &layout);
    assert_eq!(heap.inner.pos, 0x1000);
    assert_eq!(heap.inner.end, 0x2000);
    assert_eq!(satp, space.activate());
    assert_eq!(satp, 0x8000_0000_0000_0090);
}

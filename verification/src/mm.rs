//! Setting up the kernel's memory: the early heap, the frame allocator over
//! the physical memory after the kernel image, and the kernel's address
//! space.
use vstd::prelude::*;
use crate::address::PhysAddr;
use crate::frame_allocator::FrameAllocator;
use crate::heap_allocator::EarlyAllocator;
use crate::memory_set::{KernelLayout, MemorySet, frames_needed_sections, mapped_sections};
use crate::page_table::{PageTableEntry, allocator_fits};

verus! {

/// The end of physical memory.
pub const MEMORY_END: usize = 0x8800_0000;

/// The frame allocator over the pages from the first page at or after
/// `kernel_end` to the page of `MEMORY_END`; the kernel must end before that
/// page.
pub fn new_frame_allocator(kernel_end: usize) -> (r: FrameAllocator)
    requires
        kernel_end + 4096 <= usize::MAX,
        (kernel_end + 4095) / 4096 <= MEMORY_END / 4096,
    ensures
        r.wf(),
        r@.current == (kernel_end + 4095) / 4096,
        r@.end == MEMORY_END / 4096,
        r@.recycled.len() == 0,
        allocator_fits(r@),
{
    let left = PhysAddr::new(kernel_end).ceil();
    let right = PhysAddr::new(MEMORY_END).floor();
    FrameAllocator::new(left, right)
}

/// Sets the early heap to the range `heap_start` to `heap_end` and builds
/// the kernel's address space from `layout` with frames from `allocator`.
/// Returns the space and the `satp` value that activates it.
pub fn init(
    heap: &mut EarlyAllocator,
    heap_start: usize,
    heap_end: usize,
    allocator: &mut FrameAllocator,
    layout: &KernelLayout,
) -> (r: (MemorySet, u64))
    requires
        layout.is_valid(),
        allocator_fits(old(allocator)@),
        old(allocator)@.available() >= 1 + frames_needed_sections(
            set![Seq::<usize>::empty()],
            layout.sections(),
        ),
    ensures
        final(heap).inner.start == heap_start,
        final(heap).inner.end == heap_end,
        final(heap).inner.pos == heap_start,
        r.0.wf(),
        r.0.mappings() == mapped_sections(Map::<usize, PageTableEntry>::empty(), layout.sections()),
        r.0.root() == old(allocator)@.next_frame(),
        r.1 == 0x8000_0000_0000_0000u64 | ((r.0.root() as u64) >> 12u64),
        final(allocator)@ == old(allocator)@.after_allocs(
            1 + frames_needed_sections(set![Seq::<usize>::empty()], layout.sections()),
        ),
{
    heap.init(heap_start, heap_end);
    let kernel_space = MemorySet::new_kernel(allocator, layout);
    let satp = kernel_space.activate();
    (kernel_space, satp)
}

} // verus!

//! The kernel's early heap: a bump allocator over a fixed range.
use vstd::prelude::*;

verus! {

/// The state of the early heap: its range and the current top.
pub struct EarlyAllocatorInner {
    pub start: usize,
    pub end: usize,
    pub pos: usize,
}

impl EarlyAllocatorInner {
    /// The heap's invariant: the top lies in the range.
    pub open spec fn wf(&self) -> bool {
        self.start <= self.pos <= self.end
    }

    /// The heap after allocating `size` bytes.
    pub open spec fn after_alloc(self, size: usize) -> EarlyAllocatorInner {
        EarlyAllocatorInner { pos: (self.pos + size) as usize, ..self }
    }

    /// The heap after freeing the `size` bytes below the top.
    pub open spec fn after_dealloc(self, size: usize) -> EarlyAllocatorInner {
        EarlyAllocatorInner { pos: (self.pos - size) as usize, ..self }
    }
}

/// The early heap allocator. Blocks are handed out by moving the top up and
/// taken back by moving it down, so they must be freed in the reverse order
/// of their allocation.
pub struct EarlyAllocator {
    pub inner: EarlyAllocatorInner,
}

impl EarlyAllocator {
    /// An allocator with an empty range, to be set up by `init`.
    pub fn new() -> (r: Self)
        ensures
            r.inner.start == 0 && r.inner.end == 0 && r.inner.pos == 0,
            r.inner.wf(),
    {
        EarlyAllocator { inner: EarlyAllocatorInner { start: 0, end: 0, pos: 0 } }
    }

    /// Sets the heap to the range `start` to `end`, with nothing allocated.
    pub fn init(&mut self, start: usize, end: usize)
        ensures
            final(self).inner.start == start,
            final(self).inner.end == end,
            final(self).inner.pos == start,
            start <= end ==> final(self).inner.wf(),
    {
        self.inner = EarlyAllocatorInner { start, end, pos: start };
    }

    /// Allocates `size` bytes by moving the top up; the heap must have room.
    /// Returns the new top.
    pub fn alloc_block(&mut self, size: usize) -> (r: usize)
        requires
            old(self).inner.pos + size <= old(self).inner.end,
        ensures
            final(self).inner == old(self).inner.after_alloc(size),
            r == old(self).inner.pos + size,
            old(self).inner.wf() ==> final(self).inner.wf(),
    {
        self.inner.pos = self.inner.pos + size;
        self.inner.pos
    }

    /// Frees the `size` bytes below the top by moving the top down; the
    /// top must not go below the start.
    pub fn dealloc_block(&mut self, size: usize)
        requires
            old(self).inner.pos >= size,
            old(self).inner.pos - size >= old(self).inner.start,
        ensures
            final(self).inner == old(self).inner.after_dealloc(size),
            old(self).inner.wf() ==> final(self).inner.wf(),
    {
        self.inner.pos = self.inner.pos - size;
    }
}


/// Freeing the block just allocated brings the heap back to where it was,
/// and the heap stays in its range meanwhile.
pub proof fn lemma_alloc_then_dealloc(before: EarlyAllocatorInner, size: usize)
    requires
        before.wf(),
        before.pos + size <= before.end,
    ensures
        before.after_alloc(size).wf(),
        before.after_alloc(size).pos - size >= before.after_alloc(size).start,
        before.after_alloc(size).after_dealloc(size) == before,
{
}

} // verus!

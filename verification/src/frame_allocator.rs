//! Allocation of physical page frames.
use vstd::prelude::*;
use crate::address::{PhysPageNum, ppn_limit};
use crate::page_table::PageTableEntry;

verus! {

/// What a frame allocator holds: the next never-handed-out page, the end of
/// its range, and the pages given back to it, most recent last.
pub ghost struct FrameAllocatorModel {
    pub current: nat,
    pub end: nat,
    pub recycled: Seq<usize>,
}

impl FrameAllocatorModel {
    /// The allocator's own invariant.
    pub open spec fn wf(self) -> bool {
        &&& self.current <= self.end
        &&& forall|i: int| 0 <= i < self.recycled.len() ==> #[trigger] self.recycled[i] < self.current
        &&& self.recycled.no_duplicates()
    }

    /// How many frames can still be handed out.
    pub open spec fn available(self) -> nat {
        self.recycled.len() + (self.end - self.current) as nat
    }

    /// Whether an allocation succeeds: a page was given back, or the range
    /// has a page left whose successor is still a valid page number.
    pub open spec fn can_allocate(self) -> bool {
        self.recycled.len() > 0 || (self.current < self.end && self.current + 1 < ppn_limit())
    }

    /// Whether the page `p` is free: given back and not handed out since, or
    /// not handed out yet.
    pub open spec fn is_free(self, p: nat) -> bool {
        self.recycled.contains(p as usize) && p <= usize::MAX || self.current <= p < self.end
    }

    /// The page that the next allocation hands out.
    pub open spec fn next_frame(self) -> nat {
        if self.recycled.len() > 0 {
            self.recycled.last() as nat
        } else {
            self.current
        }
    }

    /// The allocator after one allocation.
    pub open spec fn after_alloc(self) -> FrameAllocatorModel {
        if self.recycled.len() > 0 {
            FrameAllocatorModel { recycled: self.recycled.drop_last(), ..self }
        } else {
            FrameAllocatorModel { current: self.current + 1, ..self }
        }
    }

    /// The allocator after `n` allocations.
    pub open spec fn after_allocs(self, n: nat) -> FrameAllocatorModel
        decreases n,
    {
        if n == 0 {
            self
        } else {
            self.after_alloc().after_allocs((n - 1) as nat)
        }
    }

    /// The allocator after the page `p` is given back.
    pub open spec fn after_dealloc(self, p: usize) -> FrameAllocatorModel {
        FrameAllocatorModel { recycled: self.recycled.push(p), ..self }
    }
}

/// A frame allocator: hands out the pages of a range in increasing order, and
/// hands out again first the pages given back most recently.
pub struct FrameAllocator {
    current: PhysPageNum,
    end: PhysPageNum,
    recycled: Vec<PhysPageNum>,
}

impl View for FrameAllocator {
    type V = FrameAllocatorModel;

    closed spec fn view(&self) -> FrameAllocatorModel {
        FrameAllocatorModel {
            current: self.current.0 as nat,
            end: self.end.0 as nat,
            recycled: self.recycled@.map_values(|p: PhysPageNum| p.0),
        }
    }
}

impl FrameAllocator {
    /// The allocator's invariant.
    pub open spec fn wf(&self) -> bool {
        self@.wf()
    }

    /// An allocator for the pages `left` (included) to `right` (excluded).
    pub fn new(left: PhysPageNum, right: PhysPageNum) -> (r: Self)
        requires
            left.0 <= right.0,
        ensures
            r.wf(),
            r@.current == left.0,
            r@.end == right.0,
            r@.recycled == Seq::<usize>::empty(),
    {
        let r = FrameAllocator { current: left, end: right, recycled: Vec::new() };
        assert(r@.recycled =~= Seq::<usize>::empty());
        r
    }

    /// How many frames can still be handed out.
    pub fn available(&self) -> (r: usize)
        requires
            self.wf(),
        ensures
            r == self@.available(),
    {
        proof {
            lemma_bounded_distinct_len(self@.recycled, self@.current);
        }
        self.recycled.len() + (self.end.0 - self.current.0)
    }

    /// Whether `ppn` may be given back: it was handed out, and it is not free
    /// already.
    pub fn can_dealloc(&self, ppn: PhysPageNum) -> (r: bool)
        requires
            self.wf(),
        ensures
            r == (ppn.0 < self@.current && !self@.recycled.contains(ppn.0)),
    {
        if ppn.0 >= self.current.0 {
            return false;
        }
        let mut i: usize = 0;
        while i < self.recycled.len()
            invariant
                i <= self.recycled@.len(),
                forall|j: int| 0 <= j < i ==> self@.recycled[j] != ppn.0,
            decreases self.recycled@.len() - i,
        {
            if self.recycled[i].0 == ppn.0 {
                proof {
                    assert(self@.recycled[i as int] == ppn.0);
                }
                return false;
            }
            i = i + 1;
        }
        proof {
            if self@.recycled.contains(ppn.0) {
                let j = choose|j: int| 0 <= j < self@.recycled.len() && self@.recycled[j] == ppn.0;
                assert(self@.recycled[j] != ppn.0);
            }
        }
        true
    }

    /// Whether an allocation succeeds.
    pub fn can_allocate(&self) -> (r: bool)
        ensures
            r == self@.can_allocate(),
    {
        self.recycled.len() > 0 || (self.current.0 < self.end.0 && (self.current.0 as u64) < 0xfff_ffff_ffffu64)
    }

    /// Hands out a free page; a page must have been given back, or the range
    /// must have a page left whose successor is a valid page number.
    pub fn allocate(&mut self) -> (r: PhysPageNum)
        requires
            old(self).wf(),
            old(self)@.can_allocate(),
        ensures
            final(self).wf(),
            r.0 == old(self)@.next_frame(),
            final(self)@ == old(self)@.after_alloc(),
            old(self)@.is_free(r.0 as nat),
            !final(self)@.is_free(r.0 as nat),
            forall|p: nat| p != r.0 ==> (final(self)@.is_free(p) == old(self)@.is_free(p)),
            final(self)@.available() + 1 == old(self)@.available(),
    {
        let ghost old_model = self@;
        if let Some(ppn) = self.recycled.pop() {
            proof {
                assert(self@.recycled =~= old_model.recycled.drop_last());
                assert(old_model.recycled.last() == ppn.0);
                assert(old_model.recycled.contains(ppn.0));
                lemma_drop_last_no_duplicates(old_model.recycled);
            }
            ppn
        } else {
            proof {
                assert(old_model.recycled.len() == 0);
            }
            let current = self.current;
            self.current = PhysPageNum::new(current.0 + 1);
            proof {
                assert(self@.recycled == old_model.recycled);
            }
            current
        }
    }

    /// Takes back the page `ppn`, which must have been handed out and not be
    /// free already.
    pub fn dealloc(&mut self, ppn: PhysPageNum)
        requires
            old(self).wf(),
            ppn.0 < old(self)@.current,
            !old(self)@.recycled.contains(ppn.0),
        ensures
            final(self).wf(),
            final(self)@ == old(self)@.after_dealloc(ppn.0),
            final(self)@.is_free(ppn.0 as nat),
            forall|p: nat| p != ppn.0 ==> (final(self)@.is_free(p) == old(self)@.is_free(p)),
            final(self)@.available() == old(self)@.available() + 1,
    {
        let ghost old_model = self@;
        self.recycled.push(ppn);
        proof {
            assert(self@.recycled =~= old_model.recycled.push(ppn.0));
            assert(self@.recycled.last() == ppn.0);
            assert(forall|p: usize| self@.recycled.contains(p) <==> (old_model.recycled.contains(p) || p == ppn.0)) by {
                assert forall|p: usize| self@.recycled.contains(p) implies (old_model.recycled.contains(p) || p == ppn.0) by {
                    let i = choose|i: int| 0 <= i < self@.recycled.len() && self@.recycled[i] == p;
                    if i < old_model.recycled.len() {
                        assert(old_model.recycled[i] == p);
                    }
                }
                assert forall|p: usize| old_model.recycled.contains(p) implies self@.recycled.contains(p) by {
                    let i = choose|i: int| 0 <= i < old_model.recycled.len() && old_model.recycled[i] == p;
                    assert(self@.recycled[i] == p);
                }
            }
        }
    }
}

/// A frame given back is the next one handed out, and handing it out brings
/// the allocator back to where it was before the frame was given back.
pub proof fn lemma_dealloc_then_alloc(m: FrameAllocatorModel, p: usize)
    requires
        m.wf(),
        p < m.current,
        !m.recycled.contains(p),
    ensures
        m.after_dealloc(p).next_frame() == p,
        m.after_dealloc(p).after_alloc() == m,
{
    assert(m.after_dealloc(p).recycled.drop_last() =~= m.recycled);
}

/// Handing out a frame keeps the invariant, and a frame handed out is not
/// handed out again by the next allocation.
pub proof fn lemma_alloc_never_repeats(m: FrameAllocatorModel)
    requires
        m.wf(),
        m.available() >= 2,
    ensures
        m.after_alloc().wf(),
        m.is_free(m.next_frame()),
        !m.after_alloc().is_free(m.next_frame()),
        m.after_alloc().next_frame() != m.next_frame(),
{
    if m.recycled.len() > 0 {
        lemma_drop_last_no_duplicates(m.recycled);
        let d = m.recycled.drop_last();
        assert(m.recycled[m.recycled.len() - 1] == m.recycled.last());
        if d.len() > 0 {
            assert(d.last() == m.recycled[m.recycled.len() - 2]);
            assert(d.contains(d.last()));
        }
    } else {
        assert(m.after_alloc().recycled.len() == 0);
    }
}

/// The next frame handed out is free, and is no longer free afterwards;
/// every other frame keeps its state.
pub proof fn lemma_alloc_never_repeats_one(m: FrameAllocatorModel)
    requires
        m.wf(),
        m.available() > 0,
    ensures
        m.after_alloc().wf(),
        m.is_free(m.next_frame()),
        !m.after_alloc().is_free(m.next_frame()),
        forall|p: nat| p != m.next_frame() ==> (m.after_alloc().is_free(p) == m.is_free(p)),
        m.after_alloc().end == m.end,
        m.after_alloc().available() + 1 == m.available(),
{
    if m.recycled.len() > 0 {
        lemma_drop_last_no_duplicates(m.recycled);
        assert(m.recycled[m.recycled.len() - 1] == m.recycled.last());
        assert(m.recycled.contains(m.recycled.last()));
    }
}

/// Two allocations are one allocation after another.
pub proof fn lemma_after_allocs_unfold(m: FrameAllocatorModel)
    ensures
        m.after_allocs(0) == m,
        m.after_allocs(1) == m.after_alloc(),
        m.after_allocs(2) == m.after_alloc().after_alloc(),
{
    reveal_with_fuel(FrameAllocatorModel::after_allocs, 3);
}

/// A run of allocations that the allocator can serve keeps its invariant and
/// its range end, and lowers what is available by its length.
pub proof fn lemma_after_allocs(m: FrameAllocatorModel, n: nat)
    requires
        m.wf(),
        n <= m.available(),
    ensures
        m.after_allocs(n).wf(),
        m.after_allocs(n).end == m.end,
        m.after_allocs(n).available() == m.available() - n,
    decreases n,
{
    if n > 0 {
        lemma_alloc_never_repeats_one(m);
        lemma_after_allocs(m.after_alloc(), (n - 1) as nat);
    }
}

/// `a` allocations followed by `b` allocations are `a + b` allocations.
pub proof fn lemma_after_allocs_add(m: FrameAllocatorModel, a: nat, b: nat)
    ensures
        m.after_allocs(a).after_allocs(b) == m.after_allocs(a + b),
    decreases a,
{
    if a > 0 {
        lemma_after_allocs_add(m.after_alloc(), (a - 1) as nat, b);
        assert((a - 1) as nat + b == (a + b - 1) as nat);
    }
}

/// A sequence of distinct numbers below `c` has at most `c` elements.
proof fn lemma_bounded_distinct_len(s: Seq<usize>, c: nat)
    requires
        s.no_duplicates(),
        forall|i: int| 0 <= i < s.len() ==> #[trigger] s[i] < c,
    ensures
        s.len() <= c,
    decreases c,
{
    if c == 0 {
        if s.len() > 0 {
            assert(s[0] < c);
        }
    } else if s.contains((c - 1) as usize) {
        let k = choose|k: int| 0 <= k < s.len() && s[k] == (c - 1) as usize;
        let t = s.remove(k);
        assert forall|i: int| 0 <= i < t.len() implies #[trigger] t[i] < c - 1 by {
            if i < k {
                assert(t[i] == s[i]);
                assert(s[i] != s[k]);
            } else {
                assert(t[i] == s[i + 1]);
                assert(s[i + 1] != s[k]);
            }
        }
        assert(t.no_duplicates()) by {
            assert forall|i: int, j: int| 0 <= i < t.len() && 0 <= j < t.len() && i != j implies t[i] != t[j] by {
                let si = if i < k { i } else { i + 1 };
                let sj = if j < k { j } else { j + 1 };
                assert(t[i] == s[si]);
                assert(t[j] == s[sj]);
            }
        }
        lemma_bounded_distinct_len(t, (c - 1) as nat);
    } else {
        assert forall|i: int| 0 <= i < s.len() implies #[trigger] s[i] < c - 1 by {
            if s[i] == c - 1 {
                assert(s.contains((c - 1) as usize));
            }
        }
        lemma_bounded_distinct_len(s, (c - 1) as nat);
    }
}

/// Dropping the last element of a sequence without duplicates leaves one
/// without duplicates that no longer holds that element.
proof fn lemma_drop_last_no_duplicates(s: Seq<usize>)
    requires
        s.len() > 0,
        s.no_duplicates(),
    ensures
        s.drop_last().no_duplicates(),
        !s.drop_last().contains(s.last()),
        forall|p: usize| p != s.last() ==> (s.drop_last().contains(p) == s.contains(p)),
{
    assert forall|p: usize| p != s.last() && s.contains(p) implies s.drop_last().contains(p) by {
        let i = choose|i: int| 0 <= i < s.len() && s[i] == p;
        assert(s.drop_last()[i] == p);
    }
    assert forall|p: usize| s.drop_last().contains(p) implies s.contains(p) && p != s.last() by {
        let i = choose|i: int| 0 <= i < s.drop_last().len() && s.drop_last()[i] == p;
        assert(s[i] == p);
        assert(s[s.len() - 1] == s.last());
    }
}

/// A physical frame handed out by an allocator, with its contents seen as the
/// page table entries it holds.
pub struct FrameTracker {
    pub ppn: PhysPageNum,
    pub entries: Vec<PageTableEntry>,
}

impl FrameTracker {
    /// Takes ownership of the frame `ppn` and clears it.
    pub fn new(ppn: PhysPageNum) -> (r: Self)
        ensures
            r.ppn == ppn,
            r.entries@.len() == 512,
            forall|i: int| 0 <= i < 512 ==> (#[trigger] r.entries@[i]).bits == 0,
    {
        let mut entries: Vec<PageTableEntry> = Vec::new();
        let mut i: usize = 0;
        while i < 512
            invariant
                i <= 512,
                entries@.len() == i,
                forall|j: int| 0 <= j < i ==> (#[trigger] entries@[j]).bits == 0,
            decreases 512 - i,
        {
            entries.push(PageTableEntry { bits: 0 });
            i = i + 1;
        }
        FrameTracker { ppn, entries }
    }
}

/// Allocates a frame from `allocator` and clears it; the allocation must
/// succeed.
pub fn frame_alloc(allocator: &mut FrameAllocator) -> (r: FrameTracker)
    requires
        old(allocator).wf(),
        old(allocator)@.can_allocate(),
    ensures
        final(allocator).wf(),
        r.ppn.0 == old(allocator)@.next_frame(),
        old(allocator)@.is_free(r.ppn.0 as nat),
        final(allocator)@ == old(allocator)@.after_alloc(),
        r.entries@.len() == 512,
        forall|i: int| 0 <= i < 512 ==> (#[trigger] r.entries@[i]).bits == 0,
{
    FrameTracker::new(allocator.allocate())
}

/// Gives the frame `ppn` back to `allocator`.
pub fn frame_dealloc(allocator: &mut FrameAllocator, ppn: PhysPageNum)
    requires
        old(allocator).wf(),
        ppn.0 < old(allocator)@.current,
        !old(allocator)@.recycled.contains(ppn.0),
    ensures
        final(allocator).wf(),
        final(allocator)@ == old(allocator)@.after_dealloc(ppn.0),
{
    allocator.dealloc(ppn);
}

} // verus!

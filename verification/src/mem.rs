//! Models of the memory collaborators the arena consumes, specified only at
//! their interface boundary: the exclusive address-space segment and the
//! shared page-frame allocator, together with the mapping error taxonomy.

use vstd::prelude::*;

verus! {

/// Size in bytes of one physical page frame.
pub const PAGE_SIZE: usize = 4096;

/// Errors surfaced by segment provisioning and registry growth.
///
/// Allocation failures are ordinary error values: out-of-memory means the
/// page-frame allocator is exhausted, while range exhaustion means the
/// segment's reserved virtual range cannot hold another slot (the caller may
/// need a larger address-space carve-out, not more physical memory).
#[derive(Debug, Clone, Copy, PartialEq, Eq, Structural)]
pub enum MapError {
    /// The target segment is already populated.
    Exists,
    /// The page-frame allocator could not supply a page.
    OutOfMemory,
    /// The virtual range of the segment would be exceeded.
    VirtOutOfRange,
}

/// A reserved, exclusive, page-granular virtual address range.
///
/// A segment is claimed by exactly one registry; claiming marks it populated,
/// and a second claim fails with [`MapError::Exists`].
pub struct Segment {
    /// First virtual address of the range.
    base: usize,
    /// Number of pages the reserved range can hold.
    page_capacity: usize,
    /// Whether the segment has already been claimed.
    populated: bool,
}

impl Segment {
    /// First virtual address of the range.
    pub closed spec fn spec_base(self) -> nat {
        self.base as nat
    }

    /// Number of pages the reserved range can hold.
    pub closed spec fn spec_page_capacity(self) -> nat {
        self.page_capacity as nat
    }

    /// Whether the segment has already been claimed by a registry.
    pub closed spec fn spec_populated(self) -> bool {
        self.populated
    }

    /// A segment is well formed when its full byte range fits in the address
    /// space.
    pub open spec fn spec_wf(self) -> bool {
        self.spec_base() + self.spec_page_capacity() * (PAGE_SIZE as int) <= usize::MAX as int + 1
    }

    /// Reserves a fresh, unpopulated range of `page_capacity` pages at `base`.
    pub fn new(base: usize, page_capacity: usize) -> (r: Segment)
        requires
            base + page_capacity * (PAGE_SIZE as int) <= usize::MAX as int + 1,
        ensures
            r.spec_base() == base,
            r.spec_page_capacity() == page_capacity,
            !r.spec_populated(),
            r.spec_wf(),
    {
        Segment { base, page_capacity, populated: false }
    }

    /// Marks the segment as claimed, as segment provisioning does.  A
    /// segment so marked is refused by any further claim.
    pub fn mark_populated(&mut self)
        ensures
            final(self).spec_base() == old(self).spec_base(),
            final(self).spec_page_capacity() == old(self).spec_page_capacity(),
            final(self).spec_populated(),
    {
        self.populated = true;
    }

    /// Number of pages the reserved range can hold.
    pub fn page_capacity(&self) -> (r: usize)
        ensures
            r == self.spec_page_capacity(),
    {
        self.page_capacity
    }

    /// Whether the segment has already been claimed.
    pub fn is_populated(&self) -> (r: bool)
        ensures
            r == self.spec_populated(),
    {
        self.populated
    }

    /// The inclusive virtual address range `(low, high)` of the segment.
    pub fn range(&self) -> (r: (usize, usize))
        requires
            self.spec_wf(),
            self.spec_page_capacity() >= 1,
        ensures
            r.0 == self.spec_base(),
            r.1 == self.spec_base() + self.spec_page_capacity() * (PAGE_SIZE as int) - 1,
    {
        let bytes_minus_one = (self.page_capacity - 1) * PAGE_SIZE + (PAGE_SIZE - 1);
        (self.base, self.base + bytes_minus_one)
    }
}

/// The system's page-frame allocator, modeled at its interface: a pool of
/// free physical frames from which `allocate` draws and to which `free`
/// returns.  Its internal free-list algorithm is consumed, not reimplemented.
pub struct PageFrameAllocator {
    /// Physical addresses of the free frames, last to be handed out first.
    frames: Vec<u64>,
}

impl View for PageFrameAllocator {
    type V = Seq<u64>;

    closed spec fn view(&self) -> Seq<u64> {
        self.frames@
    }
}

impl PageFrameAllocator {
    /// Builds an allocator over the given pool of free physical frames.
    pub fn new(frames: Vec<u64>) -> (r: PageFrameAllocator)
        ensures
            r@ == frames@,
    {
        PageFrameAllocator { frames }
    }

    /// Hands out a free frame, or fails when the pool is exhausted.
    pub fn allocate(&mut self) -> (r: Option<u64>)
        ensures
            match r {
                Some(frame) => {
                    &&& old(self)@.len() > 0
                    &&& frame == old(self)@.last()
                    &&& final(self)@ == old(self)@.drop_last()
                },
                None => {
                    &&& old(self)@.len() == 0
                    &&& final(self)@ == old(self)@
                },
            },
    {
        self.frames.pop()
    }

    /// Returns a frame to the pool.
    pub fn free(&mut self, frame: u64)
        requires
            old(self)@.len() < usize::MAX,
        ensures
            final(self)@ == old(self)@.push(frame),
    {
        self.frames.push(frame);
    }

    /// The pool of free frames always fits in `usize`.
    pub proof fn lemma_pool_bounded(&self)
        ensures
            self@.len() <= usize::MAX,
    {
        vstd::std_specs::vec::axiom_spec_len(&self.frames);
    }

    /// Number of free frames left in the pool.
    pub fn free_count(&self) -> (r: usize)
        ensures
            r == self@.len(),
    {
        self.frames.len()
    }
}

} // verus!

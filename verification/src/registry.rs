//! Reference-counted slab arena ("registry") for kernel-managed objects.
//!
//! A registry owns a page-granular virtual segment, an array of fixed-size
//! slots overlaid on that segment, and bookkeeping for occupancy, the
//! free-list head and the grown-page count.  Slots are recycled through an
//! intrusive free list; the backing memory only ever grows, never shrinks.
//!
//! A slot is either occupied (an item plus its reference count) or a link in
//! the free list; occupancy is discriminated solely by the reference count.
//! [`Handle`]s are linear capabilities: one handle value stands for exactly
//! one unit of a slot's reference count.  A handle cannot be copied or
//! cloned directly — duplicating one goes through
//! [`Registry::clone_handle`] and releasing one through
//! [`Registry::release_handle`], which adjust the count and free the slot
//! when the count reaches zero.
//!
//! In the running kernel these operations are performed under the registry's
//! bookkeeping spinlock; in this model the mutual exclusion is carried by
//! `&mut` exclusivity, and the lock primitive itself is specified in
//! [`crate::sync`].

use crate::mem::{MapError, PageFrameAllocator, Segment, PAGE_SIZE};
use vstd::arithmetic::div_mod::{
    lemma_div_is_ordered, lemma_fundamental_div_mod, lemma_fundamental_div_mod_converse,
};
use vstd::prelude::*;

verus! {

/// Sentinel slot id meaning "no free slot".
pub const NO_FREE_SLOT: usize = usize::MAX;

/// A lightweight, linear handle to one occupied slot of one registry.
///
/// A handle exists only while its slot's reference count is at least one;
/// constructing one increments the count and releasing one decrements it.
/// Slot ids are not stable identities: once a slot's count reaches zero the
/// id may be reused by an unrelated future item, so an id observed once must
/// never be treated as a persistent identity (in particular, never for
/// security decisions).
#[derive(Debug, PartialEq, Eq, Structural)]
pub struct Handle {
    /// The id of the item in the registry (its slot index).
    id: usize,
}

impl View for Handle {
    type V = int;

    closed spec fn view(&self) -> int {
        self.id as int
    }
}

impl Handle {
    /// Returns the id of the item in the registry.
    ///
    /// The id goes stale once every handle to the slot is released; future
    /// lookups with it may refer to an unrelated item.  Use it for debugging
    /// and logging only.
    pub fn id(&self) -> (r: usize)
        ensures
            r == self@,
    {
        self.id
    }
}

/// Mathematical model of one slot.
pub enum SlotView<T> {
    /// The slot holds a live item with a positive reference count.
    Occupied {
        /// The stored item.
        value: T,
        /// Number of outstanding handles to the slot.
        rc: nat,
    },
    /// The slot is free and available for reuse.
    Vacant,
}

impl<T> SlotView<T> {
    /// Whether the slot holds a live item.
    pub open spec fn is_occupied(self) -> bool {
        self is Occupied
    }

    /// The slot's reference count; zero exactly when the slot is vacant.
    pub open spec fn rc(self) -> nat {
        match self {
            SlotView::Occupied { rc, .. } => rc,
            SlotView::Vacant => 0,
        }
    }

    /// The stored item, meaningful only for occupied slots.
    pub open spec fn value(self) -> T
        recommends
            self.is_occupied(),
    {
        match self {
            SlotView::Occupied { value, .. } => value,
            SlotView::Vacant => vstd::pervasive::arbitrary(),
        }
    }
}

/// Mathematical model of a whole registry.
#[verifier::ext_equal]
pub struct RegistryView<T> {
    /// The slot array, one entry per constructed slot.
    pub slots: Seq<SlotView<T>>,
    /// Ids of the vacant slots, most recently freed first.
    pub free_list: Seq<int>,
    /// Number of pages grown so far; non-decreasing over the lifetime.
    pub pages: nat,
    /// Size in bytes of one slot.
    pub slot_size: nat,
    /// Page capacity of the backing segment.
    pub seg_pages: nat,
}

impl<T> RegistryView<T> {
    /// Reference count of slot `i`; zero when out of range or vacant.
    pub open spec fn rc(self, i: int) -> nat {
        if 0 <= i < self.slots.len() {
            self.slots[i].rc()
        } else {
            0
        }
    }

    /// Whether `i` names an occupied slot.
    pub open spec fn is_live(self, i: int) -> bool {
        0 <= i < self.slots.len() && self.slots[i].is_occupied()
    }

    /// The item stored in slot `i`.
    pub open spec fn value(self, i: int) -> T
        recommends
            self.is_live(i),
    {
        self.slots[i].value()
    }

    /// Well-formedness: the free list enumerates exactly the vacant slots,
    /// without duplicates; occupied slots have positive counts; and the
    /// grown pages cover all slots while staying inside the segment.
    pub open spec fn wf(self) -> bool {
        &&& self.slot_size >= 1
        &&& self.slots.len() * self.slot_size <= self.pages * (PAGE_SIZE as nat)
        &&& self.pages <= self.seg_pages
        &&& self.seg_pages * (PAGE_SIZE as nat) <= usize::MAX as nat
        &&& self.free_list.no_duplicates()
        &&& forall|k: int|
            0 <= k < self.free_list.len() ==> 0 <= #[trigger] self.free_list[k]
                < self.slots.len() && !self.slots[self.free_list[k]].is_occupied()
        &&& forall|i: int|
            0 <= i < self.slots.len() && !(#[trigger] self.slots[i]).is_occupied()
                ==> self.free_list.contains(i)
        &&& forall|i: int|
            0 <= i < self.slots.len() && (#[trigger] self.slots[i]).is_occupied()
                ==> self.slots[i].rc() >= 1
    }

    /// The registry after incrementing slot `i`'s reference count.
    pub open spec fn leased(self, i: int) -> RegistryView<T>
        recommends
            self.is_live(i),
    {
        RegistryView {
            slots: self.slots.update(
                i,
                SlotView::Occupied { value: self.slots[i].value(), rc: self.slots[i].rc() + 1 },
            ),
            ..self
        }
    }

    /// The registry after decrementing slot `i`'s reference count; reaching
    /// zero vacates the slot and pushes it onto the free list.
    pub open spec fn forgotten(self, i: int) -> RegistryView<T>
        recommends
            self.is_live(i),
    {
        if self.slots[i].rc() == 1 {
            RegistryView {
                slots: self.slots.update(i, SlotView::Vacant),
                free_list: seq![i] + self.free_list,
                ..self
            }
        } else {
            RegistryView {
                slots: self.slots.update(
                    i,
                    SlotView::Occupied {
                        value: self.slots[i].value(),
                        rc: (self.slots[i].rc() - 1) as nat,
                    },
                ),
                ..self
            }
        }
    }

    /// The registry after an insert that reuses the head of the free list.
    pub open spec fn inserted_reuse(self, item: T) -> RegistryView<T>
        recommends
            self.free_list.len() > 0,
    {
        RegistryView {
            slots: self.slots.update(self.free_list[0], SlotView::Occupied { value: item, rc: 1 }),
            free_list: self.free_list.drop_first(),
            ..self
        }
    }

    /// The registry after an insert that appends a fresh slot, with the page
    /// count grown to `pages`.
    pub open spec fn inserted_grown(self, item: T, pages: nat) -> RegistryView<T> {
        RegistryView { slots: self.slots.push(SlotView::Occupied { value: item, rc: 1 }), pages, ..self }
    }

    /// Whether one more slot still lies inside the segment's reserved
    /// virtual range.
    pub open spec fn next_fits(self) -> bool {
        (self.slots.len() + 1) * self.slot_size <= self.seg_pages * (PAGE_SIZE as nat)
    }

    /// Pages needed so the grown range covers one more slot.
    pub open spec fn pages_needed(self) -> int {
        let byte_end = (self.slots.len() + 1) * self.slot_size;
        (byte_end + (PAGE_SIZE as int) - 1) / (PAGE_SIZE as int)
    }

    /// How many fresh pages an insert of one more slot must map.
    pub open spec fn grow_by(self) -> int {
        if self.pages_needed() > self.pages {
            self.pages_needed() - self.pages
        } else {
            0
        }
    }

    /// The page count after growth for one more slot.
    pub open spec fn pages_after_growth(self) -> int {
        if self.pages_needed() > self.pages {
            self.pages_needed()
        } else {
            self.pages as int
        }
    }

    /// Whether an insert can proceed without mapping any page.
    pub open spec fn has_room(self) -> bool {
        self.free_list.len() > 0 || (self.slots.len() + 1) * self.slot_size <= self.pages * (
        PAGE_SIZE as nat)
    }

    /// Exactly when an insert succeeds: a freed slot is available for reuse,
    /// or the next slot fits in the segment and the allocator can supply the
    /// missing pages.
    pub open spec fn can_insert(self, free_frames: nat) -> bool {
        self.free_list.len() > 0 || (self.next_fits() && free_frames >= self.grow_by())
    }
}

/// All live slots except `i` are unchanged between two registry models:
/// liveness, values and counts agree, and no slot becomes live.
pub open spec fn unchanged_except<T>(pre: RegistryView<T>, post: RegistryView<T>, i: int) -> bool {
    &&& forall|j: int|
        #[trigger] pre.is_live(j) && j != i ==> post.is_live(j) && post.value(j) == pre.value(j)
            && post.rc(j) == pre.rc(j)
    &&& forall|j: int| #[trigger] post.is_live(j) && j != i ==> pre.is_live(j)
}

/// All live slots except `i1` and `i2` are unchanged between two registry
/// models.
pub open spec fn unchanged_except2<T>(
    pre: RegistryView<T>,
    post: RegistryView<T>,
    i1: int,
    i2: int,
) -> bool {
    &&& forall|j: int|
        #[trigger] pre.is_live(j) && j != i1 && j != i2 ==> post.is_live(j) && post.value(j)
            == pre.value(j) && post.rc(j) == pre.rc(j)
    &&& forall|j: int| #[trigger] post.is_live(j) && j != i1 && j != i2 ==> pre.is_live(j)
}

/// All live slots except `i1`, `i2` and `i3` are unchanged between two
/// registry models.
pub open spec fn unchanged_except3<T>(
    pre: RegistryView<T>,
    post: RegistryView<T>,
    i1: int,
    i2: int,
    i3: int,
) -> bool {
    &&& forall|j: int|
        #[trigger] pre.is_live(j) && j != i1 && j != i2 && j != i3 ==> post.is_live(j)
            && post.value(j) == pre.value(j) && post.rc(j) == pre.rc(j)
    &&& forall|j: int| #[trigger] post.is_live(j) && j != i1 && j != i2 && j != i3 ==> pre.is_live(j)
}

/// A one-slot frame condition whose exception is among three given slots
/// is a three-slot frame condition on them.
pub proof fn lemma_unchanged_widen_to3<T>(
    a: RegistryView<T>,
    b: RegistryView<T>,
    t: int,
    i1: int,
    i2: int,
    i3: int,
)
    requires
        unchanged_except(a, b, t),
        t == i1 || t == i2 || t == i3,
    ensures
        unchanged_except3(a, b, i1, i2, i3),
{
}

/// Three-slot frame conditions compose transitively.
pub proof fn lemma_unchanged_except3_trans<T>(
    a: RegistryView<T>,
    b: RegistryView<T>,
    c: RegistryView<T>,
    i1: int,
    i2: int,
    i3: int,
)
    requires
        unchanged_except3(a, b, i1, i2, i3),
        unchanged_except3(b, c, i1, i2, i3),
    ensures
        unchanged_except3(a, c, i1, i2, i3),
{
}

/// Two models with the same slot array agree on every slot.
pub proof fn lemma_same_slots_unchanged<T>(a: RegistryView<T>, b: RegistryView<T>, i: int)
    requires
        a.slots == b.slots,
    ensures
        unchanged_except(a, b, i),
{
}

/// Pointwise frame conditions compose transitively.
pub proof fn lemma_unchanged_except_trans<T>(
    a: RegistryView<T>,
    b: RegistryView<T>,
    c: RegistryView<T>,
    i: int,
)
    requires
        unchanged_except(a, b, i),
        unchanged_except(b, c, i),
    ensures
        unchanged_except(a, c, i),
{
}

/// A one-slot frame condition is also a two-slot frame condition.
pub proof fn lemma_unchanged_except_widen<T>(
    a: RegistryView<T>,
    b: RegistryView<T>,
    i: int,
    i2: int,
)
    requires
        unchanged_except(a, b, i),
    ensures
        unchanged_except2(a, b, i, i2),
        unchanged_except2(a, b, i2, i),
{
}

/// Two-slot frame conditions compose transitively.
pub proof fn lemma_unchanged_except2_trans<T>(
    a: RegistryView<T>,
    b: RegistryView<T>,
    c: RegistryView<T>,
    i1: int,
    i2: int,
)
    requires
        unchanged_except2(a, b, i1, i2),
        unchanged_except2(b, c, i1, i2),
    ensures
        unchanged_except2(a, c, i1, i2),
{
}

/// Registry-level bookkeeping, kept under the registry's one lock: the
/// free-list head, the slot count and the grown-page count.
pub struct RegistryBookkeeping {
    /// The most recently freed slot id, or [`NO_FREE_SLOT`] when none.
    pub last_free_id: usize,
    /// The total count of slots constructed in the registry.
    pub total_count: usize,
    /// Total count of pages grown for the registry so far.
    pub total_page_count: usize,
}

impl RegistryBookkeeping {
    /// Fresh bookkeeping: no slots, no pages, an empty free list.
    pub fn new() -> (r: RegistryBookkeeping)
        ensures
            r.last_free_id == NO_FREE_SLOT,
            r.total_count == 0,
            r.total_page_count == 0,
    {
        RegistryBookkeeping { last_free_id: NO_FREE_SLOT, total_count: 0, total_page_count: 0 }
    }
}

/// One slot of the arena: an occupied payload with its user count, or a link
/// to the next free slot.
enum Slot<T> {
    /// The slot holds a live item.
    Occupied {
        /// The stored item.
        value: T,
        /// Count of users of this item; reaching zero frees the slot.
        user_count: usize,
    },
    /// The slot is vacant.
    Free {
        /// Index of the next free slot, or [`NO_FREE_SLOT`].
        next_free: usize,
    },
}

/// A registry: a reference-counted slab arena for items of type `T`, backed
/// by an exclusive, lazily grown virtual segment.
pub struct Registry<T> {
    /// Bookkeeping counters used in the registry.
    bookkeeping: RegistryBookkeeping,
    /// The slot array overlaid on the segment.
    slots: Vec<Slot<T>>,
    /// Physical frames mapped into the segment, one per grown page.
    page_frames: Vec<u64>,
    /// Size in bytes of one slot.
    slot_size: usize,
    /// The segment this registry claimed.
    segment: Segment,
    /// The free list as a sequence of slot ids, head first.
    free_chain: Ghost<Seq<int>>,
}

impl<T> View for Registry<T> {
    type V = RegistryView<T>;

    closed spec fn view(&self) -> RegistryView<T> {
        RegistryView {
            slots: Seq::new(
                self.slots@.len(),
                |i: int|
                    match self.slots@[i] {
                        Slot::Occupied { value, user_count } => SlotView::Occupied {
                            value,
                            rc: user_count as nat,
                        },
                        Slot::Free { .. } => SlotView::Vacant,
                    },
            ),
            free_list: self.free_chain@,
            pages: self.bookkeeping.total_page_count as nat,
            slot_size: self.slot_size as nat,
            seg_pages: self.segment.spec_page_capacity() as nat,
        }
    }
}

impl<T> Registry<T> {
    /// Coherence of the concrete fields with the model: the counters match
    /// the arrays, and the intrusive links spell out exactly the free chain.
    closed spec fn inv(self) -> bool {
        &&& self.bookkeeping.total_count == self.slots@.len()
        &&& self.bookkeeping.total_page_count == self.page_frames@.len()
        &&& self.segment.spec_populated()
        &&& self.segment.spec_wf()
        &&& if self.free_chain@.len() == 0 {
            self.bookkeeping.last_free_id == NO_FREE_SLOT
        } else {
            self.bookkeeping.last_free_id == self.free_chain@[0]
        }
        &&& forall|k: int|
            0 <= k < self.free_chain@.len() ==> 0 <= #[trigger] self.free_chain@[k]
                < self.slots@.len() && (self.slots@[self.free_chain@[k]] matches Slot::Free {
                next_free,
            } && next_free == if k + 1 < self.free_chain@.len() {
                self.free_chain@[k + 1]
            } else {
                NO_FREE_SLOT as int
            })
    }

    /// Full well-formedness: concrete coherence plus model invariants.
    pub closed spec fn wf(self) -> bool {
        self.inv() && self@.wf()
    }

    /// A well-formed registry has a well-formed model.
    pub proof fn lemma_wf(self)
        requires
            self.wf(),
        ensures
            self@.wf(),
    {
    }

    /// Creates a new, empty registry over the given segment, claiming it
    /// exclusively; fails with [`MapError::Exists`] if the segment is
    /// already populated.  Typically called once per object kind, at boot,
    /// before any other core observes the segment.
    pub fn new(segment: Segment, slot_size: usize) -> (r: Result<Registry<T>, MapError>)
        requires
            slot_size >= 1,
            segment.spec_wf(),
            segment.spec_page_capacity() * (PAGE_SIZE as int) <= usize::MAX as int,
        ensures
            r is Ok <==> !segment.spec_populated(),
            match r {
                Ok(reg) => {
                    &&& reg.wf()
                    &&& reg@.slots.len() == 0
                    &&& reg@.free_list.len() == 0
                    &&& reg@.pages == 0
                    &&& reg@.slot_size == slot_size
                    &&& reg@.seg_pages == segment.spec_page_capacity()
                },
                Err(e) => e == MapError::Exists,
            },
    {
        let mut segment = segment;
        if segment.is_populated() {
            return Err(MapError::Exists);
        }
        segment.mark_populated();
        let reg = Registry {
            bookkeeping: RegistryBookkeeping::new(),
            slots: Vec::new(),
            page_frames: Vec::new(),
            slot_size,
            segment,
            free_chain: Ghost(Seq::empty()),
        };
        proof {
            assert(reg@.slots =~= Seq::<SlotView<T>>::empty());
            assert(reg@.free_list =~= Seq::<int>::empty());
            assert(reg@.slots.len() * reg@.slot_size == 0) by (nonlinear_arith)
                requires
                    reg@.slots.len() == 0,
            ;
            assert(reg@.slot_size >= 1);
            assert(reg@.slots.len() * reg@.slot_size <= reg@.pages * (PAGE_SIZE as nat));
            assert(reg@.pages <= reg@.seg_pages);
            assert(reg@.seg_pages == segment.spec_page_capacity() as nat);
            assert(segment.spec_page_capacity() * (PAGE_SIZE as int) <= usize::MAX as int);
            assert(reg@.seg_pages * (PAGE_SIZE as nat) <= usize::MAX as nat) by (nonlinear_arith)
                requires
                    reg@.seg_pages == segment.spec_page_capacity() as nat,
                    segment.spec_page_capacity() * (PAGE_SIZE as int) <= usize::MAX as int,
                    segment.spec_page_capacity() >= 0,
            ;
            assert(reg@.free_list.no_duplicates());
            assert(reg@.wf());
            assert(reg.inv());
        }
        Ok(reg)
    }

    /// Grows the backing range, if needed, so that one more slot can be
    /// inserted without any further page mapping.  Growth is transactional:
    /// on failure the registry and the allocator are exactly as before.
    #[verifier::loop_isolation(false)]
    pub fn reserve(&mut self, pfa: &mut PageFrameAllocator) -> (r: Result<(), MapError>)
        requires
            old(self).wf(),
        ensures
            final(self).wf(),
            final(self)@.slots == old(self)@.slots,
            final(self)@.free_list == old(self)@.free_list,
            final(self)@.slot_size == old(self)@.slot_size,
            final(self)@.seg_pages == old(self)@.seg_pages,
            final(self)@.pages >= old(self)@.pages,
            r is Ok <==> old(self)@.can_insert(old(pfa)@.len()),
            match r {
                Ok(()) => {
                    &&& final(self)@.has_room()
                    &&& final(self)@.pages == if old(self)@.free_list.len() > 0 {
                        old(self)@.pages as int
                    } else {
                        old(self)@.pages_after_growth()
                    }
                    &&& final(pfa)@ == old(pfa)@.subrange(
                        0,
                        old(pfa)@.len() - (final(self)@.pages - old(self)@.pages),
                    )
                },
                Err(e) => {
                    &&& final(self)@ == old(self)@
                    &&& final(pfa)@ == old(pfa)@
                    &&& e == if !old(self)@.next_fits() {
                        MapError::VirtOutOfRange
                    } else {
                        MapError::OutOfMemory
                    }
                },
            },
    {
        proof {
            lemma_registry_size_bounds(self@);
        }
        if self.bookkeeping.last_free_id != NO_FREE_SLOT {
            proof {
                assert(self@.free_list.len() > 0);
                assert(pfa@ =~= pfa@.subrange(0, pfa@.len() as int));
            }
            return Ok(());
        }
        let len = self.bookkeeping.total_count;
        let seg_bytes = self.segment.page_capacity() * PAGE_SIZE;
        let used = len * self.slot_size;
        proof {
            assert((len + 1) * (self.slot_size as int) == len * (self.slot_size as int) + (
            self.slot_size as int)) by (nonlinear_arith);
        }
        if seg_bytes < self.slot_size || used > seg_bytes - self.slot_size {
            proof {
                assert(!self@.next_fits());
            }
            return Err(MapError::VirtOutOfRange);
        }
        let byte_end = used + self.slot_size;
        let needed_pages = byte_end / PAGE_SIZE + if byte_end % PAGE_SIZE != 0 {
            1usize
        } else {
            0usize
        };
        proof {
            lemma_div_ceil(byte_end as int, PAGE_SIZE as int);
            lemma_div_ceil_le_cap(
                byte_end as int,
                self.segment.spec_page_capacity() as int,
                PAGE_SIZE as int,
            );
            assert(needed_pages == self@.pages_needed());
            assert(needed_pages <= self@.seg_pages);
        }
        if needed_pages > self.bookkeeping.total_page_count {
            let need = needed_pages - self.bookkeeping.total_page_count;
            proof {
                pfa.lemma_pool_bounded();
            }
            let ghost orig_pfa = pfa@;
            let mut got: Vec<u64> = Vec::new();
            while got.len() < need
                invariant
                    orig_pfa.len() <= usize::MAX,
                    got@.len() <= need,
                    got@.len() <= orig_pfa.len(),
                    pfa@ == orig_pfa.subrange(0, orig_pfa.len() - got@.len()),
                    forall|k: int|
                        0 <= k < got@.len() ==> #[trigger] got@[k] == orig_pfa[orig_pfa.len() - 1
                            - k],
                decreases need - got@.len(),
            {
                match pfa.allocate() {
                    Some(frame) => {
                        got.push(frame);
                        proof {
                            assert(pfa@ =~= orig_pfa.subrange(0, orig_pfa.len() - got@.len()));
                        }
                    },
                    None => {
                        // Out of memory: release the frames taken so far, in
                        // reverse, so growth is all-or-nothing and the
                        // allocator is exactly restored.
                        proof {
                            assert(orig_pfa.len() - got@.len() == 0);
                            assert(orig_pfa.len() < need);
                        }
                        while got.len() > 0
                            invariant
                                orig_pfa.len() <= usize::MAX,
                                got@.len() <= orig_pfa.len(),
                                pfa@ == orig_pfa.subrange(0, orig_pfa.len() - got@.len()),
                                forall|k: int|
                                    0 <= k < got@.len() ==> #[trigger] got@[k] == orig_pfa[
                                        orig_pfa.len() - 1 - k],
                            decreases got@.len(),
                        {
                            match got.pop() {
                                Some(frame) => {
                                    pfa.free(frame);
                                    proof {
                                        assert(pfa@ =~= orig_pfa.subrange(
                                            0,
                                            orig_pfa.len() - got@.len(),
                                        ));
                                    }
                                },
                                None => {},
                            }
                        }
                        proof {
                            assert(pfa@ =~= orig_pfa);
                            assert(!old(self)@.can_insert(old(pfa)@.len()));
                        }
                        return Err(MapError::OutOfMemory);
                    },
                }
            }
            // Commit: record the mapped frames and the new page count.
            self.page_frames.append(&mut got);
            self.bookkeeping.total_page_count = needed_pages;
            proof {
                assert(self@.slots =~= old(self)@.slots);
                vstd::arithmetic::mul::lemma_mul_inequality(
                    old(self)@.pages as int,
                    needed_pages as int,
                    PAGE_SIZE as int,
                );
                assert(self@.wf());
                assert(self.inv());
            }
        } else {
            proof {
                assert(self@.has_room());
                assert(pfa@ =~= pfa@.subrange(0, pfa@.len() as int));
            }
        }
        proof {
            assert(self@.slots =~= old(self)@.slots);
            if self@.pages == old(self)@.pages {
                assert(pfa@ =~= pfa@.subrange(0, pfa@.len() as int));
            }
        }
        Ok(())
    }

    /// Allocates a slot for `item` in a registry that is known to have room,
    /// reusing the head of the free list when one exists and appending a
    /// fresh slot otherwise.  The slot starts with reference count 1 and the
    /// returned handle is that one reference.
    pub fn insert_reserved(&mut self, item: T) -> (h: Handle)
        requires
            old(self).wf(),
            old(self)@.has_room(),
        ensures
            final(self).wf(),
            final(self)@.pages == old(self)@.pages,
            h@ == if old(self)@.free_list.len() > 0 {
                old(self)@.free_list[0]
            } else {
                old(self)@.slots.len() as int
            },
            final(self)@ == if old(self)@.free_list.len() > 0 {
                old(self)@.inserted_reuse(item)
            } else {
                old(self)@.inserted_grown(item, old(self)@.pages)
            },
            final(self)@.is_live(h@),
            final(self)@.rc(h@) == 1,
            final(self)@.value(h@) == item,
            !old(self)@.is_live(h@),
            unchanged_except(old(self)@, final(self)@, h@),
            final(self)@.slots.len() == old(self)@.slots.len() + if old(
                self,
            )@.free_list.len() > 0 {
                0int
            } else {
                1int
            },
    {
        proof {
            lemma_registry_size_bounds(self@);
        }
        if self.bookkeeping.last_free_id == NO_FREE_SLOT {
            let id = self.bookkeeping.total_count;
            proof {
                vstd::arithmetic::mul::lemma_mul_ordering(
                    (self@.slots.len() + 1) as int,
                    self@.slot_size as int,
                );
            }
            self.slots.push(Slot::Occupied { value: item, user_count: 1 });
            self.bookkeeping.total_count = id + 1;
            proof {
                assert(self@.slots =~= old(self)@.slots.push(
                    SlotView::Occupied { value: item, rc: 1 },
                ));
                assert(self@ =~= old(self)@.inserted_grown(item, old(self)@.pages));
            }
            Handle { id }
        } else {
            let id = self.bookkeeping.last_free_id;
            let next = match &self.slots[id] {
                Slot::Free { next_free } => *next_free,
                Slot::Occupied { .. } => vstd::pervasive::unreached(),
            };
            self.bookkeeping.last_free_id = next;
            self.slots[id] = Slot::Occupied { value: item, user_count: 1 };
            proof {
                self.free_chain@ = self.free_chain@.drop_first();
            }
            proof {
                assert(self@.slots =~= old(self)@.slots.update(
                    old(self)@.free_list[0],
                    SlotView::Occupied { value: item, rc: 1 },
                ));
                assert(self@ =~= old(self)@.inserted_reuse(item));
                lemma_wf_after_reuse(old(self)@, self@, item);
            }
            Handle { id }
        }
    }

    /// Allocates and inserts `item` into the registry, growing the backing
    /// pages on demand.  Fails with [`MapError::VirtOutOfRange`] when the
    /// segment is exhausted and with [`MapError::OutOfMemory`] when the
    /// page-frame allocator is; on failure nothing is changed.
    pub fn insert(&mut self, pfa: &mut PageFrameAllocator, item: T) -> (r: Result<
        Handle,
        MapError,
    >)
        requires
            old(self).wf(),
        ensures
            final(self).wf(),
            final(self)@.pages >= old(self)@.pages,
            r is Ok <==> old(self)@.can_insert(old(pfa)@.len()),
            match r {
                Ok(h) => {
                    &&& h@ == if old(self)@.free_list.len() > 0 {
                        old(self)@.free_list[0]
                    } else {
                        old(self)@.slots.len() as int
                    }
                    &&& final(self)@ == if old(self)@.free_list.len() > 0 {
                        old(self)@.inserted_reuse(item)
                    } else {
                        old(self)@.inserted_grown(item, old(self)@.pages_after_growth() as nat)
                    }
                    &&& old(self)@.free_list.len() > 0 ==> final(self)@.pages == old(self)@.pages
                        && final(pfa)@ == old(pfa)@
                    &&& final(pfa)@ == old(pfa)@.subrange(
                        0,
                        old(pfa)@.len() - (final(self)@.pages - old(self)@.pages),
                    )
                    &&& final(self)@.is_live(h@)
                    &&& final(self)@.rc(h@) == 1
                    &&& final(self)@.value(h@) == item
                    &&& !old(self)@.is_live(h@)
                    &&& unchanged_except(old(self)@, final(self)@, h@)
                },
                Err(e) => {
                    &&& final(self)@ == old(self)@
                    &&& final(pfa)@ == old(pfa)@
                    &&& e == if !old(self)@.next_fits() {
                        MapError::VirtOutOfRange
                    } else {
                        MapError::OutOfMemory
                    }
                    &&& e != MapError::Exists
                },
            },
    {
        match self.reserve(pfa) {
            Err(e) => Err(e),
            Ok(()) => {
                let h = self.insert_reserved(item);
                proof {
                    if old(self)@.free_list.len() > 0 {
                        assert(self@ =~= old(self)@.inserted_reuse(item));
                        assert(pfa@ =~= old(pfa)@);
                    } else {
                        assert(self@ =~= old(self)@.inserted_grown(
                            item,
                            old(self)@.pages_after_growth() as nat,
                        ));
                    }
                }
                Ok(h)
            },
        }
    }

    /// Returns a handle to the item at `id`, or `None` if the id is out of
    /// range or the slot is vacant.  While at least one handle to a slot
    /// exists the lookup always observes the slot occupied and succeeds.
    ///
    /// Ids are reusable, so the item found may be unrelated to the item the
    /// id was first observed with; never use this for security decisions.
    pub fn get(&mut self, id: usize) -> (r: Option<Handle>)
        requires
            old(self).wf(),
            old(self)@.rc(id as int) < usize::MAX,
        ensures
            final(self).wf(),
            r is Some <==> old(self)@.is_live(id as int),
            match r {
                Some(h) => h@ == id && final(self)@ == old(self)@.leased(id as int),
                None => final(self)@ == old(self)@,
            },
    {
        if id >= self.bookkeeping.total_count {
            return None;
        }
        let occupied = match &self.slots[id] {
            Slot::Occupied { .. } => true,
            Slot::Free { .. } => false,
        };
        if occupied {
            self.lease_item_at(id);
            Some(Handle { id })
        } else {
            None
        }
    }

    /// Increments the reference count of the occupied slot `id`.
    pub fn lease_item_at(&mut self, id: usize)
        requires
            old(self).wf(),
            old(self)@.is_live(id as int),
            old(self)@.rc(id as int) < usize::MAX,
        ensures
            final(self).wf(),
            final(self)@ == old(self)@.leased(id as int),
            final(self)@.is_live(id as int),
            final(self)@.rc(id as int) == old(self)@.rc(id as int) + 1,
            final(self)@.value(id as int) == old(self)@.value(id as int),
            unchanged_except(old(self)@, final(self)@, id as int),
    {
        match &mut self.slots[id] {
            Slot::Occupied { user_count, .. } => {
                *user_count = *user_count + 1;
            },
            Slot::Free { .. } => {
                proof {
                    assert(false);
                }
            },
        }
        proof {
            assert(self@.slots =~= old(self)@.leased(id as int).slots);
            assert(self@ =~= old(self)@.leased(id as int));
        }
    }

    /// Decrements the reference count of the occupied slot `id`.  When the
    /// count reaches zero the payload is destroyed — handed back to the
    /// caller — and only afterwards is the slot pushed onto the free list,
    /// the order the lock discipline requires.
    pub fn forget_item_at(&mut self, id: usize) -> (r: Option<T>)
        requires
            old(self).wf(),
            old(self)@.is_live(id as int),
        ensures
            final(self).wf(),
            final(self)@ == old(self)@.forgotten(id as int),
            final(self)@.pages == old(self)@.pages,
            r is Some <==> old(self)@.rc(id as int) == 1,
            match r {
                Some(value) => value == old(self)@.value(id as int) && !final(self)@.is_live(
                    id as int,
                ) && final(self)@.free_list == seq![id as int] + old(self)@.free_list,
                None => final(self)@.is_live(id as int) && final(self)@.rc(id as int) == old(
                    self,
                )@.rc(id as int) - 1,
            },
            final(self)@.is_live(id as int) ==> final(self)@.value(id as int) == old(
                self,
            )@.value(id as int),
            unchanged_except(old(self)@, final(self)@, id as int),
    {
        let rc = match &self.slots[id] {
            Slot::Occupied { user_count, .. } => *user_count,
            Slot::Free { .. } => vstd::pervasive::unreached(),
        };
        if rc == 1 {
            // Destroy the payload in place first, then update the free list.
            let mut tmp = Slot::Free { next_free: self.bookkeeping.last_free_id };
            self.slots.set_and_swap(id, &mut tmp);
            self.bookkeeping.last_free_id = id;
            proof {
                self.free_chain@ = seq![id as int] + self.free_chain@;
            }
            let value = match tmp {
                Slot::Occupied { value, .. } => value,
                Slot::Free { .. } => vstd::pervasive::unreached(),
            };
            proof {
                assert(self@.slots =~= old(self)@.slots.update(id as int, SlotView::Vacant));
                assert(self@ =~= old(self)@.forgotten(id as int));
                lemma_wf_after_free(old(self)@, self@, id as int);
            }
            Some(value)
        } else {
            match &mut self.slots[id] {
                Slot::Occupied { user_count, .. } => {
                    *user_count = *user_count - 1;
                },
                Slot::Free { .. } => {
                    proof {
                        assert(false);
                    }
                },
            }
            proof {
                assert(self@.slots =~= old(self)@.forgotten(id as int).slots);
                assert(self@ =~= old(self)@.forgotten(id as int));
            }
            None
        }
    }

    /// Clones a handle: increments the slot's reference count and returns a
    /// second handle to the same slot.
    pub fn clone_handle(&mut self, h: &Handle) -> (r: Handle)
        requires
            old(self).wf(),
            old(self)@.is_live(h@),
            old(self)@.rc(h@) < usize::MAX,
        ensures
            final(self).wf(),
            r@ == h@,
            final(self)@ == old(self)@.leased(h@),
            final(self)@.is_live(h@),
            final(self)@.rc(h@) == old(self)@.rc(h@) + 1,
            final(self)@.value(h@) == old(self)@.value(h@),
            unchanged_except(old(self)@, final(self)@, h@),
    {
        let id = h.id();
        self.lease_item_at(id);
        Handle { id }
    }

    /// Releases a handle: decrements the slot's reference count, destroying
    /// the payload and recycling the slot when this was the last handle.
    /// Returns the payload exactly in that case.
    pub fn release_handle(&mut self, h: Handle) -> (r: Option<T>)
        requires
            old(self).wf(),
            old(self)@.is_live(h@),
        ensures
            final(self).wf(),
            final(self)@ == old(self)@.forgotten(h@),
            r is Some <==> old(self)@.rc(h@) == 1,
            match r {
                Some(value) => value == old(self)@.value(h@) && !final(self)@.is_live(h@),
                None => final(self)@.is_live(h@) && final(self)@.rc(h@) == old(self)@.rc(h@) - 1
                    && final(self)@.value(h@) == old(self)@.value(h@),
            },
            unchanged_except(old(self)@, final(self)@, h@),
    {
        let id = h.id();
        self.forget_item_at(id)
    }

    /// Shared access to the item an occupied slot holds.
    pub fn item_at(&self, id: usize) -> (r: &T)
        requires
            self.wf(),
            self@.is_live(id as int),
        ensures
            *r == self@.value(id as int),
    {
        match &self.slots[id] {
            Slot::Occupied { value, .. } => value,
            Slot::Free { .. } => vstd::pervasive::unreached(),
        }
    }

    /// Replaces the item an occupied slot holds, handing the previous item
    /// back; the slot's reference count and everything else are unchanged.
    pub fn replace_item_at(&mut self, id: usize, new: T) -> (r: T)
        requires
            old(self).wf(),
            old(self)@.is_live(id as int),
        ensures
            final(self).wf(),
            r == old(self)@.value(id as int),
            final(self)@.slots == old(self)@.slots.update(
                id as int,
                SlotView::Occupied { value: new, rc: old(self)@.rc(id as int) },
            ),
            final(self)@.free_list == old(self)@.free_list,
            final(self)@.pages == old(self)@.pages,
            final(self)@.slot_size == old(self)@.slot_size,
            final(self)@.seg_pages == old(self)@.seg_pages,
            final(self)@.is_live(id as int),
            final(self)@.rc(id as int) == old(self)@.rc(id as int),
            final(self)@.value(id as int) == new,
            unchanged_except(old(self)@, final(self)@, id as int),
    {
        let rc = match &self.slots[id] {
            Slot::Occupied { user_count, .. } => *user_count,
            Slot::Free { .. } => vstd::pervasive::unreached(),
        };
        let mut tmp = Slot::Occupied { value: new, user_count: rc };
        self.slots.set_and_swap(id, &mut tmp);
        proof {
            assert(self@.slots =~= old(self)@.slots.update(
                id as int,
                SlotView::Occupied { value: new, rc: old(self)@.rc(id as int) },
            ));
        }
        match tmp {
            Slot::Occupied { value, .. } => value,
            Slot::Free { .. } => vstd::pervasive::unreached(),
        }
    }

    /// The total count of slots constructed in the registry.
    pub fn total_count(&self) -> (r: usize)
        requires
            self.wf(),
        ensures
            r == self@.slots.len(),
    {
        self.bookkeeping.total_count
    }

    /// Total count of pages grown for the registry so far.
    pub fn total_page_count(&self) -> (r: usize)
        ensures
            r == self@.pages,
    {
        self.bookkeeping.total_page_count
    }
}

/// In a well-formed registry every byte quantity the bookkeeping handles
/// fits in `usize`.
proof fn lemma_registry_size_bounds<T>(v: RegistryView<T>)
    requires
        v.wf(),
    ensures
        v.slots.len() * v.slot_size <= usize::MAX,
        v.pages * (PAGE_SIZE as nat) <= usize::MAX,
        v.slots.len() <= usize::MAX,
        v.slots.len() * v.slot_size <= v.pages * (PAGE_SIZE as nat),
{
    vstd::arithmetic::mul::lemma_mul_inequality(
        v.pages as int,
        v.seg_pages as int,
        PAGE_SIZE as int,
    );
    assert(v.slots.len() <= v.slots.len() * v.slot_size) by (nonlinear_arith)
        requires
            v.slot_size >= 1,
    ;
}

/// Ceiling division, written the way the bookkeeping computes it.
proof fn lemma_div_ceil(be: int, p: int)
    requires
        0 <= be,
        0 < p,
    ensures
        be / p + (if be % p == 0 {
            0int
        } else {
            1int
        }) == (be + p - 1) / p,
        be <= ((be + p - 1) / p) * p,
{
    lemma_fundamental_div_mod(be, p);
    let q = be / p;
    let r = be % p;
    if r == 0 {
        assert(be + p - 1 == q * p + (p - 1)) by (nonlinear_arith)
            requires
                be == p * q + r,
                r == 0,
        ;
        lemma_fundamental_div_mod_converse(be + p - 1, p, q, p - 1);
        assert(be <= q * p) by (nonlinear_arith)
            requires
                be == p * q + r,
                r == 0,
        ;
    } else {
        assert(be + p - 1 == (q + 1) * p + (r - 1)) by (nonlinear_arith)
            requires
                be == p * q + r,
        ;
        lemma_fundamental_div_mod_converse(be + p - 1, p, q + 1, r - 1);
        assert(be <= (q + 1) * p) by (nonlinear_arith)
            requires
                be == p * q + r,
                r < p,
        ;
    }
}

/// The ceiling of `be / p` does not pass `cap` when `be <= cap * p`.
proof fn lemma_div_ceil_le_cap(be: int, cap: int, p: int)
    requires
        0 <= be,
        0 <= cap,
        0 < p,
        be <= cap * p,
    ensures
        (be + p - 1) / p <= cap,
{
    assert(be + p - 1 <= cap * p + (p - 1)) by (nonlinear_arith)
        requires
            be <= cap * p,
    ;
    lemma_div_is_ordered(be + p - 1, cap * p + (p - 1), p);
    lemma_fundamental_div_mod_converse(cap * p + (p - 1), p, cap, p - 1);
}

/// Well-formedness is preserved by an insert that reuses the free-list head.
proof fn lemma_wf_after_reuse<T>(v: RegistryView<T>, w: RegistryView<T>, item: T)
    requires
        v.wf(),
        v.free_list.len() > 0,
        w == v.inserted_reuse(item),
    ensures
        w.wf(),
{
    let id = v.free_list[0];
    assert forall|k: int| 0 <= k < w.free_list.len() implies 0 <= #[trigger] w.free_list[k]
        < w.slots.len() && !w.slots[w.free_list[k]].is_occupied() by {
        assert(w.free_list[k] == v.free_list[k + 1]);
        assert(v.free_list[k + 1] != id);
    }
    assert forall|i: int|
        0 <= i < w.slots.len() && !(#[trigger] w.slots[i]).is_occupied() implies w.free_list.contains(
        i,
    ) by {
        assert(i != id);
        assert(!v.slots[i].is_occupied());
        let k = choose|k: int| 0 <= k < v.free_list.len() && v.free_list[k] == i;
        assert(k != 0);
        assert(w.free_list[k - 1] == i);
    }
    assert(w.free_list.no_duplicates()) by {
        assert forall|a: int, b: int|
            0 <= a < w.free_list.len() && 0 <= b < w.free_list.len() && a != b implies w.free_list[a]
            != w.free_list[b] by {
            assert(w.free_list[a] == v.free_list[a + 1]);
            assert(w.free_list[b] == v.free_list[b + 1]);
        }
    }
}

/// Well-formedness is preserved by freeing a slot whose count reached zero.
proof fn lemma_wf_after_free<T>(v: RegistryView<T>, w: RegistryView<T>, id: int)
    requires
        v.wf(),
        v.is_live(id),
        w == v.forgotten(id),
        v.rc(id) == 1,
    ensures
        w.wf(),
{
    assert(!v.free_list.contains(id));
    assert(w.free_list.no_duplicates()) by {
        assert forall|a: int, b: int|
            0 <= a < w.free_list.len() && 0 <= b < w.free_list.len() && a != b implies w.free_list[a]
            != w.free_list[b] by {
            if a != 0 && b != 0 {
                assert(w.free_list[a] == v.free_list[a - 1]);
                assert(w.free_list[b] == v.free_list[b - 1]);
            }
        }
    }
    assert forall|k: int| 0 <= k < w.free_list.len() implies 0 <= #[trigger] w.free_list[k]
        < w.slots.len() && !w.slots[w.free_list[k]].is_occupied() by {
        if k != 0 {
            assert(w.free_list[k] == v.free_list[k - 1]);
        }
    }
    assert forall|i: int|
        0 <= i < w.slots.len() && !(#[trigger] w.slots[i]).is_occupied() implies w.free_list.contains(
        i,
    ) by {
        if i == id {
            assert(w.free_list[0] == id);
        } else {
            assert(!v.slots[i].is_occupied());
            let k = choose|k: int| 0 <= k < v.free_list.len() && v.free_list[k] == i;
            assert(w.free_list[k + 1] == i);
        }
    }
}

/// While at least one handle to a slot exists — its reference count is
/// nonzero — the slot is occupied: a lookup never observes it as vacant.
pub proof fn lemma_no_premature_free<T>(v: RegistryView<T>, id: int)
    requires
        v.wf(),
        v.rc(id) >= 1,
    ensures
        v.is_live(id),
        !v.free_list.contains(id),
{
    if v.free_list.contains(id) {
        let k = choose|k: int| 0 <= k < v.free_list.len() && v.free_list[k] == id;
        assert(!v.slots[id].is_occupied());
    }
}

impl<T> RegistryView<T> {
    /// The registry after `k` consecutive leases of slot `i`.
    pub open spec fn leased_n(self, i: int, k: nat) -> RegistryView<T>
        decreases k,
    {
        if k == 0 {
            self
        } else {
            self.leased_n(i, (k - 1) as nat).leased(i)
        }
    }

    /// The registry after `k` consecutive forgets of slot `i`.
    pub open spec fn forgotten_n(self, i: int, k: nat) -> RegistryView<T>
        decreases k,
    {
        if k == 0 {
            self
        } else {
            self.forgotten(i).forgotten_n(i, (k - 1) as nat)
        }
    }
}

/// Leasing `k` times raises the count by `k` and changes nothing else about
/// the slot or the rest of the registry.
pub proof fn lemma_leased_n_props<T>(v: RegistryView<T>, i: int, k: nat)
    requires
        v.is_live(i),
    ensures
        v.leased_n(i, k).is_live(i),
        v.leased_n(i, k).rc(i) == v.rc(i) + k,
        v.leased_n(i, k).value(i) == v.value(i),
        v.leased_n(i, k).slots.len() == v.slots.len(),
        v.leased_n(i, k).free_list == v.free_list,
        v.leased_n(i, k).pages == v.pages,
    decreases k,
{
    if k > 0 {
        lemma_leased_n_props(v, i, (k - 1) as nat);
    }
}

/// One lease followed by one forget returns the registry to exactly its
/// prior state.
pub proof fn lemma_lease_forget_cancel<T>(v: RegistryView<T>, i: int)
    requires
        v.is_live(i),
        v.rc(i) >= 1,
    ensures
        v.leased(i).forgotten(i) == v,
{
    assert(v.slots[i] == (SlotView::Occupied { value: v.slots[i].value(), rc: v.slots[i].rc() }));
    assert(v.leased(i).forgotten(i).slots =~= v.slots);
    assert(v.leased(i).forgotten(i) =~~= v);
}

/// `k` leases followed by `k` forgets return the registry to exactly its
/// prior state.
pub proof fn lemma_lease_forget_roundtrip<T>(v: RegistryView<T>, i: int, k: nat)
    requires
        v.is_live(i),
        v.rc(i) >= 1,
    ensures
        v.leased_n(i, k).forgotten_n(i, k) == v,
    decreases k,
{
    if k > 0 {
        lemma_leased_n_props(v, i, (k - 1) as nat);
        lemma_lease_forget_cancel(v.leased_n(i, (k - 1) as nat), i);
        lemma_lease_forget_roundtrip(v, i, (k - 1) as nat);
    }
}

/// Reference-count law: for a handle whose slot has count 1, cloning it `k`
/// times yields count `1 + k`; the first `k` drops leave the item live and
/// untouched, and the `(k + 1)`-th drop — and only that one — deallocates
/// the payload.
pub proof fn lemma_reference_count_roundtrip<T>(v: RegistryView<T>, i: int, k: nat)
    requires
        v.wf(),
        v.is_live(i),
        v.rc(i) == 1,
    ensures
        v.leased_n(i, k).rc(i) == 1 + k,
        v.leased_n(i, k).forgotten_n(i, k) == v,
        v.leased_n(i, k).forgotten_n(i, k).is_live(i),
        v.leased_n(i, k).forgotten_n(i, k).value(i) == v.value(i),
        !v.leased_n(i, k).forgotten_n(i, k).forgotten(i).is_live(i),
{
    lemma_leased_n_props(v, i, k);
    lemma_lease_forget_roundtrip(v, i, k);
}

/// Growth monotonicity law: no registry transition ever shrinks the
/// grown-page count — leases, forgets and reusing inserts leave it alone,
/// and a growing insert only raises it.  Freed slots are recycled, never
/// unmapped.
pub proof fn lemma_page_growth_monotonic<T>(v: RegistryView<T>, i: int, item: T, pages: nat)
    requires
        pages >= v.pages,
    ensures
        v.leased(i).pages == v.pages,
        v.forgotten(i).pages == v.pages,
        v.inserted_reuse(item).pages == v.pages,
        v.inserted_grown(item, pages).pages >= v.pages,
{
}

/// Reuse law: dropping the last handle of slot `i` puts `i` at the head of
/// the free list, and the next insert reuses exactly that slot — same id,
/// no new slot, no page growth.
pub proof fn lemma_slot_reuse<T>(v: RegistryView<T>, i: int, item: T)
    requires
        v.wf(),
        v.is_live(i),
        v.rc(i) == 1,
    ensures
        v.forgotten(i).free_list.len() > 0,
        v.forgotten(i).free_list[0] == i,
        v.forgotten(i).inserted_reuse(item).slots[i] == (SlotView::Occupied {
            value: item,
            rc: 1nat,
        }),
        v.forgotten(i).inserted_reuse(item).slots.len() == v.slots.len(),
        v.forgotten(i).inserted_reuse(item).pages == v.pages,
        v.forgotten(i).inserted_reuse(item).free_list == v.free_list,
{
    assert(v.forgotten(i).free_list == seq![i] + v.free_list);
    assert(v.forgotten(i).inserted_reuse(item).free_list =~= v.free_list);
}

} // verus!

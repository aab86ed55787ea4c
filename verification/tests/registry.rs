use oro_kernel::mem::{MapError, PageFrameAllocator, Segment, PAGE_SIZE};
use oro_kernel::registry::{Registry, RegistryBookkeeping, NO_FREE_SLOT};

fn one_page_registry_for_two() -> (Registry<u64>, PageFrameAllocator) {
    // A registry sized for exactly 2 items: a one-page segment with
    // half-page slots.
    let segment = Segment::new(0x1000, 1);
    let Ok(reg) = Registry::<u64>::new(segment, PAGE_SIZE / 2) else {
        panic!("fresh segment must be claimable");
    };
    let pfa = PageFrameAllocator::new(vec![0x7000]);
    (reg, pfa)
}

#[test]
fn bookkeeping_starts_empty() {
    let bk = RegistryBookkeeping::new();
    assert_eq!(bk.last_free_id, NO_FREE_SLOT);
    assert_eq!(bk.total_count, 0);
    assert_eq!(bk.total_page_count, 0);
}

#[test]
fn new_rejects_populated_segment() {
    let mut segment = Segment::new(0x1000, 1);
    segment.mark_populated();
    match Registry::<u64>::new(segment, 64) {
        Err(MapError::Exists) => {}
        _ => panic!("a populated segment must be refused"),
    }
}

#[test]
fn insert_assigns_sequential_ids_and_grows_once() {
    let (mut reg, mut pfa) = one_page_registry_for_two();
    assert_eq!(reg.total_page_count(), 0);
    let a = reg.insert(&mut pfa, 11).unwrap();
    assert_eq!(a.id(), 0);
    assert_eq!(reg.total_page_count(), 1);
    assert_eq!(pfa.free_count(), 0);
    let b = reg.insert(&mut pfa, 22).unwrap();
    assert_eq!(b.id(), 1);
    // The second slot fits in the already-grown page.
    assert_eq!(reg.total_page_count(), 1);
    assert_eq!(reg.total_count(), 2);
    assert_eq!(*reg.item_at(a.id()), 11);
    assert_eq!(*reg.item_at(b.id()), 22);
    let _ = reg.release_handle(a);
    let _ = reg.release_handle(b);
}

#[test]
fn dropped_slot_is_reused_before_growth() {
    // Scenario: registry sized for 2 items on a one-page segment; insert A
    // (id 0), insert B (id 1), drop A, insert C: C receives id 0, not 2.
    let (mut reg, mut pfa) = one_page_registry_for_two();
    let a = reg.insert(&mut pfa, 1).unwrap();
    let b = reg.insert(&mut pfa, 2).unwrap();
    assert_eq!(a.id(), 0);
    assert_eq!(b.id(), 1);
    let pages_before = reg.total_page_count();
    let freed = reg.release_handle(a);
    assert_eq!(freed, Some(1));
    let c = reg.insert(&mut pfa, 3).unwrap();
    assert_eq!(c.id(), 0);
    assert_eq!(*reg.item_at(c.id()), 3);
    // Reuse grew nothing.
    assert_eq!(reg.total_page_count(), pages_before);
    assert_eq!(reg.total_count(), 2);
    let _ = reg.release_handle(b);
    let _ = reg.release_handle(c);
}

#[test]
fn insert_at_capacity_fails_without_mutation() {
    // Scenario: registry at capacity with zero free slots; insert returns
    // the range-exhaustion error and performs no partial mutation.
    let (mut reg, mut pfa) = one_page_registry_for_two();
    let a = reg.insert(&mut pfa, 1).unwrap();
    let b = reg.insert(&mut pfa, 2).unwrap();
    pfa.free(0x8000);
    let frames_before = pfa.free_count();
    let count_before = reg.total_count();
    let pages_before = reg.total_page_count();
    match reg.insert(&mut pfa, 3) {
        Err(MapError::VirtOutOfRange) => {}
        _ => panic!("a full registry must report range exhaustion"),
    }
    assert_eq!(reg.total_count(), count_before);
    assert_eq!(reg.total_page_count(), pages_before);
    assert_eq!(pfa.free_count(), frames_before);
    let _ = reg.release_handle(a);
    let _ = reg.release_handle(b);
}

#[test]
fn insert_without_frames_fails_out_of_memory() {
    let segment = Segment::new(0x10000, 2);
    let Ok(mut reg) = Registry::<u64>::new(segment, PAGE_SIZE) else {
        panic!("fresh segment must be claimable");
    };
    let mut pfa = PageFrameAllocator::new(Vec::new());
    match reg.insert(&mut pfa, 1) {
        Err(MapError::OutOfMemory) => {}
        _ => panic!("an exhausted allocator must surface out-of-memory"),
    }
    assert_eq!(reg.total_count(), 0);
    assert_eq!(reg.total_page_count(), 0);
}

#[test]
fn reference_count_roundtrip_frees_on_last_drop() {
    // A handle cloned k times then dropped k + 1 times: the (k + 1)-th
    // drop deallocates the payload, the k-th does not.
    let (mut reg, mut pfa) = one_page_registry_for_two();
    let h = reg.insert(&mut pfa, 42).unwrap();
    let c1 = reg.clone_handle(&h);
    let c2 = reg.clone_handle(&h);
    assert_eq!(c1.id(), h.id());
    assert_eq!(c2.id(), h.id());
    assert_eq!(reg.release_handle(c1), None);
    assert_eq!(reg.release_handle(c2), None);
    // Still live under the final handle.
    assert_eq!(*reg.item_at(h.id()), 42);
    assert_eq!(reg.release_handle(h), Some(42));
}

#[test]
fn get_observes_live_slots_and_never_vacant_ones() {
    // While at least one handle to a slot exists, `get` observes the slot
    // occupied; once the last handle is gone, it observes nothing.
    let (mut reg, mut pfa) = one_page_registry_for_two();
    let h = reg.insert(&mut pfa, 9).unwrap();
    let id = h.id();
    let g = reg.get(id);
    assert!(g.is_some());
    let g = g.unwrap();
    assert_eq!(g.id(), id);
    assert_eq!(reg.release_handle(g), None);
    assert_eq!(reg.release_handle(h), Some(9));
    assert!(reg.get(id).is_none());
    assert!(reg.get(55).is_none());
}

#[test]
fn lease_and_forget_adjust_counts() {
    let (mut reg, mut pfa) = one_page_registry_for_two();
    let h = reg.insert(&mut pfa, 5).unwrap();
    reg.lease_item_at(h.id());
    assert_eq!(reg.forget_item_at(h.id()), None);
    assert_eq!(reg.forget_item_at(h.id()), Some(5));
    // The handle value is now stale by contract; do not release it again.
    let _ = h;
}

#[test]
fn replace_item_swaps_payload_in_place() {
    let (mut reg, mut pfa) = one_page_registry_for_two();
    let h = reg.insert(&mut pfa, 7).unwrap();
    let old = reg.replace_item_at(h.id(), 70);
    assert_eq!(old, 7);
    assert_eq!(*reg.item_at(h.id()), 70);
    assert_eq!(reg.release_handle(h), Some(70));
}

#[test]
fn page_count_is_monotonic_across_the_lifetime() {
    // total_page_count never decreases, whatever sequence of inserts and
    // drops runs.
    let segment = Segment::new(0x40000, 4);
    let Ok(mut reg) = Registry::<u64>::new(segment, PAGE_SIZE) else {
        panic!("fresh segment must be claimable");
    };
    let mut pfa = PageFrameAllocator::new(vec![0x1000, 0x2000, 0x3000, 0x4000]);
    let mut last = reg.total_page_count();
    let mut handles = Vec::new();
    for v in 0..3u64 {
        let h = reg.insert(&mut pfa, v).unwrap();
        assert!(reg.total_page_count() >= last);
        last = reg.total_page_count();
        handles.push(h);
    }
    while let Some(h) = handles.pop() {
        let _ = reg.release_handle(h);
        assert!(reg.total_page_count() >= last);
        last = reg.total_page_count();
    }
    // Reuse after drops still never shrinks the backing range.
    let h = reg.insert(&mut pfa, 9).unwrap();
    assert!(reg.total_page_count() >= last);
    let _ = reg.release_handle(h);
}

#[test]
fn failed_multi_page_growth_releases_partial_frames() {
    // A slot spanning two pages needs two frames at once; with only one
    // frame available the insert fails out-of-memory and the frame taken
    // first is released back, leaving allocator and registry untouched.
    let segment = Segment::new(0x80000, 4);
    let Ok(mut reg) = Registry::<u64>::new(segment, 2 * PAGE_SIZE) else {
        panic!("fresh segment must be claimable");
    };
    let mut pfa = PageFrameAllocator::new(vec![0x9000]);
    match reg.insert(&mut pfa, 1) {
        Err(MapError::OutOfMemory) => {}
        _ => panic!("growth must fail with a single frame"),
    }
    assert_eq!(pfa.free_count(), 1);
    assert_eq!(reg.total_page_count(), 0);
    assert_eq!(reg.total_count(), 0);
    // With enough frames the same insert succeeds and maps both pages.
    pfa.free(0xA000);
    let h = reg.insert(&mut pfa, 1).unwrap();
    assert_eq!(h.id(), 0);
    assert_eq!(reg.total_page_count(), 2);
    assert_eq!(pfa.free_count(), 0);
    let _ = reg.release_handle(h);
}

#[test]
fn segment_reports_its_range() {
    let segment = Segment::new(0x2000, 2);
    assert!(!segment.is_populated());
    assert_eq!(segment.page_capacity(), 2);
    assert_eq!(segment.range(), (0x2000, 0x2000 + 2 * PAGE_SIZE - 1));
}

#[test]
fn frame_allocator_hands_out_last_first() {
    let mut pfa = PageFrameAllocator::new(vec![0xA000, 0xB000]);
    assert_eq!(pfa.free_count(), 2);
    assert_eq!(pfa.allocate(), Some(0xB000));
    assert_eq!(pfa.allocate(), Some(0xA000));
    assert_eq!(pfa.allocate(), None);
    pfa.free(0xC000);
    assert_eq!(pfa.allocate(), Some(0xC000));
}

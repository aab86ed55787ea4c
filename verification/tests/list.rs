use oro_kernel::list::ListRegistry;
use oro_kernel::mem::{PageFrameAllocator, Segment, PAGE_SIZE};
use oro_kernel::registry::Registry;

fn setup() -> (ListRegistry, Registry<u64>, PageFrameAllocator) {
    let list_segment = Segment::new(0x100000, 4);
    let item_segment = Segment::new(0x200000, 4);
    let Ok(lr) = ListRegistry::new(list_segment, item_segment, 128, 128) else {
        panic!("fresh segments must be claimable");
    };
    let payload_segment = Segment::new(0x300000, 4);
    let Ok(payloads) = Registry::<u64>::new(payload_segment, 64) else {
        panic!("fresh segment must be claimable");
    };
    let pfa = PageFrameAllocator::new(vec![0x1000, 0x2000, 0x3000, 0x4000, 0x5000, 0x6000]);
    (lr, payloads, pfa)
}

#[test]
fn created_list_is_empty() {
    let (mut lr, _payloads, mut pfa) = setup();
    let list = lr.create_list(&mut pfa).unwrap();
    assert_eq!(lr.iter_forward(&list).len(), 0);
    assert_eq!(lr.iter_backward(&list).len(), 0);
    lr.release_list_handle(list);
}

#[test]
fn append_links_payloads_in_order() {
    let (mut lr, mut payloads, mut pfa) = setup();
    let list = lr.create_list(&mut pfa).unwrap();
    let h1 = payloads.insert(&mut pfa, 100).unwrap();
    let h2 = payloads.insert(&mut pfa, 200).unwrap();
    let id1 = h1.id();
    let id2 = h2.id();
    let n1 = match lr.append(&mut pfa, &list, h1) {
        Ok(n) => n,
        Err(_) => panic!("append must succeed with room"),
    };
    let n2 = match lr.append(&mut pfa, &list, h2) {
        Ok(n) => n,
        Err(_) => panic!("append must succeed with room"),
    };
    assert_eq!(lr.iter_forward(&list), vec![id1, id2]);
    assert_eq!(lr.iter_backward(&list), vec![id2, id1]);
    let _ = lr;
    let _ = (n1, n2);
}

#[test]
fn delete_middle_node_relinks_neighbours() {
    // Scenario: append handles H1, H2, H3 in order; delete the node
    // wrapping H2; forward iteration from the list's first yields exactly
    // [H1, H3].
    let (mut lr, mut payloads, mut pfa) = setup();
    let list = lr.create_list(&mut pfa).unwrap();
    let h1 = payloads.insert(&mut pfa, 1).unwrap();
    let h2 = payloads.insert(&mut pfa, 2).unwrap();
    let h3 = payloads.insert(&mut pfa, 3).unwrap();
    let (id1, id2, id3) = (h1.id(), h2.id(), h3.id());
    let _n1 = lr.append(&mut pfa, &list, h1).ok().unwrap();
    let n2 = lr.append(&mut pfa, &list, h2).ok().unwrap();
    let _n3 = lr.append(&mut pfa, &list, h3).ok().unwrap();
    assert_eq!(lr.iter_forward(&list), vec![id1, id2, id3]);
    lr.delete(&n2);
    assert_eq!(lr.iter_forward(&list), vec![id1, id3]);
    assert_eq!(lr.iter_backward(&list), vec![id3, id1]);
    // The detached node still wraps its payload handle; releasing the last
    // node handle hands the payload handle back.
    let payload = lr.release_item_handle(n2);
    let payload = payload.expect("last handle to a detached node frees it");
    assert_eq!(payload.id(), id2);
    assert_eq!(payloads.release_handle(payload), Some(2));
}

#[test]
fn delete_head_and_tail_adjust_boundaries() {
    let (mut lr, mut payloads, mut pfa) = setup();
    let list = lr.create_list(&mut pfa).unwrap();
    let h1 = payloads.insert(&mut pfa, 1).unwrap();
    let h2 = payloads.insert(&mut pfa, 2).unwrap();
    let h3 = payloads.insert(&mut pfa, 3).unwrap();
    let (id1, id2, id3) = (h1.id(), h2.id(), h3.id());
    let n1 = lr.append(&mut pfa, &list, h1).ok().unwrap();
    let _n2 = lr.append(&mut pfa, &list, h2).ok().unwrap();
    let n3 = lr.append(&mut pfa, &list, h3).ok().unwrap();
    lr.delete(&n1);
    assert_eq!(lr.iter_forward(&list), vec![id2, id3]);
    lr.delete(&n3);
    assert_eq!(lr.iter_forward(&list), vec![id2]);
    assert_eq!(lr.iter_backward(&list), vec![id2]);
}

#[test]
fn delete_sole_node_empties_the_list() {
    let (mut lr, mut payloads, mut pfa) = setup();
    let list = lr.create_list(&mut pfa).unwrap();
    let h1 = payloads.insert(&mut pfa, 1).unwrap();
    let n1 = lr.append(&mut pfa, &list, h1).ok().unwrap();
    assert_eq!(lr.iter_forward(&list).len(), 1);
    lr.delete(&n1);
    assert_eq!(lr.iter_forward(&list).len(), 0);
    assert_eq!(lr.iter_backward(&list).len(), 0);
}

#[test]
fn delete_detached_node_is_a_no_op() {
    let (mut lr, mut payloads, mut pfa) = setup();
    let list = lr.create_list(&mut pfa).unwrap();
    let h1 = payloads.insert(&mut pfa, 1).unwrap();
    let n1 = lr.append(&mut pfa, &list, h1).ok().unwrap();
    lr.delete(&n1);
    // Already detached: deleting again changes nothing.
    lr.delete(&n1);
    assert_eq!(lr.iter_forward(&list).len(), 0);
}

#[test]
fn node_slots_are_recycled_after_release() {
    let (mut lr, mut payloads, mut pfa) = setup();
    let list = lr.create_list(&mut pfa).unwrap();
    let h1 = payloads.insert(&mut pfa, 1).unwrap();
    let n1 = lr.append(&mut pfa, &list, h1).ok().unwrap();
    let first_node_id = n1.id();
    lr.delete(&n1);
    let payload = lr.release_item_handle(n1).expect("detached node frees");
    let _ = payloads.release_handle(payload);
    // The freed node slot is reused by the next append.
    let h2 = payloads.insert(&mut pfa, 2).unwrap();
    let n2 = lr.append(&mut pfa, &list, h2).ok().unwrap();
    assert_eq!(n2.id(), first_node_id);
}

//! Doubly-linked list overlay built from two registries.
//!
//! A [`ListRegistry`] composes two slab arenas: one for link nodes
//! ([`Item`]) and one for list heads ([`List`]).  Lists and nodes are
//! referenced through the same linear [`Handle`]s the arenas hand out, and
//! every structural link (a node's `prev`/`next`/`list`, a list's
//! `first`/`last`) owns one unit of the referenced slot's count.  Insert and
//! delete relink neighbours in place, so no array is ever compacted.

use crate::mem::{MapError, PageFrameAllocator, Segment};
use crate::registry::{
    lemma_same_slots_unchanged, lemma_unchanged_except2_trans, lemma_unchanged_except3_trans,
    lemma_unchanged_except_trans, lemma_unchanged_except_widen, lemma_unchanged_widen_to3,
    unchanged_except, unchanged_except2, unchanged_except3, Handle, Registry, RegistryView,
};
use vstd::prelude::*;

verus! {

/// The id behind an optional link, with `d` standing in for `None`.
pub open spec fn opt_id_or(o: Option<int>, d: int) -> int {
    match o {
        Some(v) => v,
        None => d,
    }
}

/// A link node: wraps a handle to a payload item plus optional links to the
/// owning list and to the neighbouring nodes of that list.
pub struct Item {
    /// Handle to the list that owns this node; `None` when detached.
    list: Option<Handle>,
    /// Handle to the previous node in the list.
    prev: Option<Handle>,
    /// Handle to the next node in the list.
    next: Option<Handle>,
    /// Handle to the payload item in its own registry.  Present in every
    /// node the overlay hands out; the `Option` exists only so the in-place
    /// surgery of `delete` and `append` has a value to swap through.
    handle: Option<Handle>,
}

impl Item {
    /// Id of the owning list, or `None` when the node is detached.
    pub closed spec fn list_id(self) -> Option<int> {
        match self.list {
            Some(h) => Some(h@),
            None => None,
        }
    }

    /// Id of the previous node in the list.
    pub closed spec fn prev_id(self) -> Option<int> {
        match self.prev {
            Some(h) => Some(h@),
            None => None,
        }
    }

    /// Id of the next node in the list.
    pub closed spec fn next_id(self) -> Option<int> {
        match self.next {
            Some(h) => Some(h@),
            None => None,
        }
    }

    /// Id of the payload item this node wraps.
    pub closed spec fn payload_id(self) -> Option<int> {
        match self.handle {
            Some(h) => Some(h@),
            None => None,
        }
    }

    /// A placeholder node, used only as the swap value for in-place surgery.
    fn empty() -> (r: Item)
        ensures
            r.list_id() is None,
            r.prev_id() is None,
            r.next_id() is None,
            r.payload_id() is None,
    {
        Item { list: None, prev: None, next: None, handle: None }
    }
}

/// A single list: optional handles to the boundary nodes and a count,
/// together with the (ghost) sequence of node ids in list order.
pub struct List {
    /// The first node in the list, or `None` if the list is empty.
    first: Option<Handle>,
    /// The last node in the list, or `None` if the list is empty.
    last: Option<Handle>,
    /// The count of nodes in the list.
    count: usize,
    /// The node ids in list order.
    chain: Ghost<Seq<int>>,
}

impl List {
    /// Id of the first node, or `None` if the list is empty.
    pub closed spec fn first_id(self) -> Option<int> {
        match self.first {
            Some(h) => Some(h@),
            None => None,
        }
    }

    /// Id of the last node, or `None` if the list is empty.
    pub closed spec fn last_id(self) -> Option<int> {
        match self.last {
            Some(h) => Some(h@),
            None => None,
        }
    }

    /// The count of nodes in the list.
    pub closed spec fn spec_count(self) -> nat {
        self.count as nat
    }

    /// The node ids in list order.
    pub closed spec fn spec_chain(self) -> Seq<int> {
        self.chain@
    }

    /// A fresh, empty list.
    fn empty() -> (r: List)
        ensures
            r.first_id() is None,
            r.last_id() is None,
            r.spec_count() == 0,
            r.spec_chain() == Seq::<int>::empty(),
    {
        List { first: None, last: None, count: 0, chain: Ghost(Seq::empty()) }
    }
}

/// What must hold of the node standing at position `k` of the chain `c` of
/// list `lid`: it is live, owned by this list, wraps a payload, is held by
/// at least its two structural references, and is linked to exactly its
/// chain neighbours.
pub open spec fn chain_node_ok(
    items: RegistryView<Item>,
    lid: int,
    c: Seq<int>,
    k: int,
) -> bool {
    &&& items.is_live(c[k])
    &&& items.value(c[k]).list_id() == Some(lid)
    &&& items.value(c[k]).payload_id() is Some
    &&& items.rc(c[k]) >= 2
    &&& items.value(c[k]).prev_id() == (if k == 0 {
        Option::<int>::None
    } else {
        Some(c[k - 1])
    })
    &&& items.value(c[k]).next_id() == (if k == c.len() - 1 {
        Option::<int>::None
    } else {
        Some(c[k + 1])
    })
}

/// Well-formedness of one live list against the node arena: the chain is
/// duplicate-free, matches the count and the boundary handles, and every
/// chain position satisfies [`chain_node_ok`]; the list's count never
/// exceeds its reference count (each node holds one handle to its list).
pub open spec fn list_wf(items: RegistryView<Item>, lists: RegistryView<List>, lid: int) -> bool {
    let l = lists.value(lid);
    let c = l.spec_chain();
    &&& c.no_duplicates()
    &&& l.spec_count() == c.len()
    &&& lists.rc(lid) >= c.len()
    &&& l.first_id() == if c.len() == 0 {
        Option::<int>::None
    } else {
        Some(c[0])
    }
    &&& l.last_id() == if c.len() == 0 {
        Option::<int>::None
    } else {
        Some(c[c.len() - 1])
    }
    &&& forall|k: int| 0 <= k < c.len() ==> #[trigger] chain_node_ok(items, lid, c, k)
}

/// Well-formedness of one live node: it wraps a payload, and it is either
/// detached (no links at all) or a member of the chain of the live list it
/// names.
pub open spec fn node_wf(items: RegistryView<Item>, lists: RegistryView<List>, nid: int) -> bool {
    let n = items.value(nid);
    &&& n.payload_id() is Some
    &&& match n.list_id() {
        Some(lid) => lists.is_live(lid) && lists.value(lid).spec_chain().contains(nid),
        None => n.prev_id() is None && n.next_id() is None,
    }
}

/// Well-formedness of the whole overlay.
pub open spec fn overlay_wf(items: RegistryView<Item>, lists: RegistryView<List>) -> bool {
    &&& forall|lid: int| lists.is_live(lid) ==> #[trigger] list_wf(items, lists, lid)
    &&& forall|nid: int| items.is_live(nid) ==> #[trigger] node_wf(items, lists, nid)
}

/// A wrapper around two registries to create lists and list items.
pub struct ListRegistry {
    /// The registry storing the link nodes.
    item_registry: Registry<Item>,
    /// The registry storing the lists themselves.
    list_registry: Registry<List>,
}

impl ListRegistry {
    /// Model of the node arena.
    pub closed spec fn items(self) -> RegistryView<Item> {
        self.item_registry@
    }

    /// Model of the list arena.
    pub closed spec fn lists(self) -> RegistryView<List> {
        self.list_registry@
    }

    /// Full well-formedness: both arenas and the overlay structure.
    pub closed spec fn wf(self) -> bool {
        &&& self.item_registry.wf()
        &&& self.list_registry.wf()
        &&& overlay_wf(self.items(), self.lists())
    }

    /// A well-formed overlay has well-formed arena models and structure.
    pub proof fn lemma_wf(self)
        requires
            self.wf(),
        ensures
            self.items().wf(),
            self.lists().wf(),
            overlay_wf(self.items(), self.lists()),
    {
        self.item_registry.lemma_wf();
        self.list_registry.lemma_wf();
    }

    /// Creates a new list registry over two fresh segments, one for the
    /// lists and one for the link nodes; fails with [`MapError::Exists`] if
    /// either segment is already populated.
    pub fn new(
        list_segment: Segment,
        item_segment: Segment,
        list_slot_size: usize,
        item_slot_size: usize,
    ) -> (r: Result<ListRegistry, MapError>)
        requires
            list_slot_size >= 1,
            item_slot_size >= 1,
            list_segment.spec_wf(),
            item_segment.spec_wf(),
            list_segment.spec_page_capacity() * (crate::mem::PAGE_SIZE as int) <= usize::MAX as int,
            item_segment.spec_page_capacity() * (crate::mem::PAGE_SIZE as int) <= usize::MAX as int,
        ensures
            r is Ok <==> !list_segment.spec_populated() && !item_segment.spec_populated(),
            match r {
                Ok(lr) => {
                    &&& lr.wf()
                    &&& lr.items().slots.len() == 0
                    &&& lr.lists().slots.len() == 0
                    &&& lr.items().free_list.len() == 0
                    &&& lr.lists().free_list.len() == 0
                },
                Err(e) => e == MapError::Exists,
            },
    {
        let item_registry = match Registry::<Item>::new(item_segment, item_slot_size) {
            Ok(reg) => reg,
            Err(e) => { return Err(e) },
        };
        let list_registry = match Registry::<List>::new(list_segment, list_slot_size) {
            Ok(reg) => reg,
            Err(e) => { return Err(e) },
        };
        Ok(ListRegistry { item_registry, list_registry })
    }

    /// Creates a new, empty list and returns the handle to it.
    pub fn create_list(&mut self, pfa: &mut PageFrameAllocator) -> (r: Result<Handle, MapError>)
        requires
            old(self).wf(),
        ensures
            final(self).wf(),
            final(self).items() == old(self).items(),
            r is Ok <==> old(self).lists().can_insert(old(pfa)@.len()),
            match r {
                Ok(h) => {
                    &&& final(self).lists().is_live(h@)
                    &&& final(self).lists().rc(h@) == 1
                    &&& final(self).lists().value(h@).spec_count() == 0
                    &&& final(self).lists().value(h@).first_id() is None
                    &&& final(self).lists().value(h@).last_id() is None
                    &&& final(self).lists().value(h@).spec_chain() == Seq::<int>::empty()
                    &&& !old(self).lists().is_live(h@)
                    &&& unchanged_except(old(self).lists(), final(self).lists(), h@)
                },
                Err(e) => {
                    &&& final(self).lists() == old(self).lists()
                    &&& final(pfa)@ == old(pfa)@
                    &&& e != MapError::Exists
                },
            },
    {
        let l = List::empty();
        match self.list_registry.insert(pfa, l) {
            Err(e) => Err(e),
            Ok(h) => {
                proof {
                    let pre = old(self).lists();
                    let post = self.lists();
                    old(self).list_registry.lemma_wf();
                    assert(!pre.is_live(h@));
                    lemma_overlay_after_list_insert(old(self).items(), pre, post, h@);
                }
                Ok(h)
            },
        }
    }
}

impl ListRegistry {
    /// Inserts `payload` at the end of the list `list_h` names: a fresh link
    /// node wrapping the payload handle is allocated in the node arena and
    /// linked after the current tail.  On failure the payload handle is
    /// handed back untouched together with the error.
    pub fn append(&mut self, pfa: &mut PageFrameAllocator, list_h: &Handle, payload: Handle) -> (r:
        Result<Handle, (MapError, Handle)>)
        requires
            old(self).wf(),
            old(self).lists().is_live(list_h@),
            old(self).lists().rc(list_h@) < usize::MAX,
        ensures
            final(self).wf(),
            r is Ok <==> old(self).items().can_insert(old(pfa)@.len()),
            match r {
                Ok(nh) => ({
                    let c = old(self).lists().value(list_h@).spec_chain();
                    &&& !old(self).items().is_live(nh@)
                    &&& final(self).items().is_live(nh@)
                    &&& final(self).items().rc(nh@) == 3
                    &&& final(self).items().value(nh@).payload_id() == Some(payload@)
                    &&& final(self).items().value(nh@).list_id() == Some(list_h@)
                    &&& final(self).items().value(nh@).next_id() is None
                    &&& final(self).items().value(nh@).prev_id() == (if c.len() == 0 {
                        Option::<int>::None
                    } else {
                        Some(c[c.len() - 1])
                    })
                    &&& final(self).lists().is_live(list_h@)
                    &&& final(self).lists().rc(list_h@) == old(self).lists().rc(list_h@) + 1
                    &&& final(self).lists().value(list_h@).spec_chain() == c.push(nh@)
                    &&& final(self).lists().value(list_h@).spec_count() == c.len() + 1
                    &&& final(self).lists().value(list_h@).first_id() == (if c.len() == 0 {
                        Some(nh@)
                    } else {
                        old(self).lists().value(list_h@).first_id()
                    })
                    &&& final(self).lists().value(list_h@).last_id() == Some(nh@)
                    &&& unchanged_except(old(self).lists(), final(self).lists(), list_h@)
                    &&& (c.len() == 0 ==> unchanged_except(
                        old(self).items(),
                        final(self).items(),
                        nh@,
                    ))
                    &&& (c.len() > 0 ==> ({
                        let pl = c[c.len() - 1];
                        &&& unchanged_except2(old(self).items(), final(self).items(), nh@, pl)
                        &&& final(self).items().is_live(pl)
                        &&& final(self).items().rc(pl) == old(self).items().rc(pl)
                        &&& final(self).items().value(pl).next_id() == Some(nh@)
                        &&& final(self).items().value(pl).prev_id() == old(self).items().value(
                            pl,
                        ).prev_id()
                        &&& final(self).items().value(pl).list_id() == old(self).items().value(
                            pl,
                        ).list_id()
                        &&& final(self).items().value(pl).payload_id() == old(self).items().value(
                            pl,
                        ).payload_id()
                    }))
                }),
                Err((e, p)) => {
                    &&& p == payload
                    &&& final(self).items() == old(self).items()
                    &&& final(self).lists() == old(self).lists()
                    &&& final(pfa)@ == old(pfa)@
                    &&& e != MapError::Exists
                },
            },
    {
        let lid = list_h.id();
        proof {
            assert(list_wf(old(self).items(), old(self).lists(), lid as int));
        }
        match self.item_registry.reserve(pfa) {
            Err(e) => Err((e, payload)),
            Ok(()) => {
                let ghost items0 = self.item_registry@;
                let ghost c = old(self).lists().value(lid as int).spec_chain();
                let nh = self.item_registry.insert_reserved(
                    Item { list: None, prev: None, next: None, handle: Some(payload) },
                );
                let nid = nh.id();
                proof {
                    assert(!old(self).items().is_live(nid as int)) by {
                        old(self).item_registry.lemma_wf();
                    }
                }
                let ghost items1 = self.item_registry@;
                let t_last = self.item_registry.clone_handle(&nh);
                let ghost items2 = self.item_registry@;
                let t_link = self.item_registry.clone_handle(&nh);
                let ghost items3 = self.item_registry@;
                let t_list = self.list_registry.clone_handle(list_h);
                let ghost lists1 = self.list_registry@;
                proof {
                    lemma_same_slots_unchanged(old(self).items(), items0, nid as int);
                    lemma_unchanged_except_trans(old(self).items(), items0, items1, nid as int);
                    lemma_unchanged_except_trans(old(self).items(), items1, items2, nid as int);
                    lemma_unchanged_except_trans(old(self).items(), items2, items3, nid as int);
                    assert(unchanged_except(old(self).items(), items3, nid as int));
                    assert(items3.rc(nid as int) == 3);
                    // The tail node of the list is untouched so far.
                    assert(c.len() > 0 ==> chain_node_ok(old(self).items(), lid as int, c, c.len()
                        - 1));
                    assert(c.len() > 0 ==> items3.is_live(c[c.len() - 1]) && items3.value(
                        c[c.len() - 1],
                    ) == old(self).items().value(c[c.len() - 1]));
                }
                let mut lval = self.list_registry.replace_item_at(lid, List::empty());
                let ghost lists_mid = self.list_registry@;
                proof {
                    assert(lval == old(self).lists().value(lid as int));
                    assert(lval.last_id() == (if c.len() == 0 {
                        Option::<int>::None
                    } else {
                        Some(c[c.len() - 1])
                    }));
                }
                let old_last = lval.last.take();
                lval.last = Some(t_last);
                proof {
                    assert(lval.count < usize::MAX) by {
                        assert(old(self).lists().rc(lid as int) >= c.len());
                    }
                }
                lval.count = lval.count + 1;
                lval.chain = Ghost(lval.chain@.push(nid as int));
                match old_last {
                    None => {
                        proof {
                            assert(c.len() == 0);
                        }
                        lval.first = Some(t_link);
                        let _ = self.list_registry.replace_item_at(lid, lval);
                        let ghost lists2 = self.list_registry@;
                        let mut nval = self.item_registry.replace_item_at(nid, Item::empty());
                        nval.list = Some(t_list);
                        let ghost items4a = self.item_registry@;
                        let _ = self.item_registry.replace_item_at(nid, nval);
                        proof {
                            let items4 = self.item_registry@;
                            lemma_unchanged_except_trans(
                                old(self).items(),
                                items3,
                                items4a,
                                nid as int,
                            );
                            lemma_unchanged_except_trans(
                                old(self).items(),
                                items4a,
                                items4,
                                nid as int,
                            );
                            assert(unchanged_except(old(self).lists(), self.lists(), lid as int))
                                by {
                                lemma_unchanged_except_trans(
                                    old(self).lists(),
                                    lists1,
                                    lists_mid,
                                    lid as int,
                                );
                                lemma_unchanged_except_trans(
                                    old(self).lists(),
                                    lists_mid,
                                    lists2,
                                    lid as int,
                                );
                            }
                            lemma_overlay_after_append_first(
                                old(self).items(),
                                old(self).lists(),
                                self.items(),
                                self.lists(),
                                lid as int,
                                nid as int,
                            );
                        }
                    },
                    Some(prev_h) => {
                        let pid = prev_h.id();
                        proof {
                            assert(c.len() > 0);
                            assert(pid as int == c[c.len() - 1]);
                            assert(self.items().is_live(pid as int));
                        }
        let _ = self.list_registry.replace_item_at(lid, lval);
                        let ghost lists2 = self.list_registry@;
                        let mut pval = self.item_registry.replace_item_at(pid, Item::empty());
                        let ghost items5a = self.item_registry@;
                        pval.next = Some(t_link);
                        let _ = self.item_registry.replace_item_at(pid, pval);
                        let ghost items5 = self.item_registry@;
                        let mut nval = self.item_registry.replace_item_at(nid, Item::empty());
                        let ghost items6a = self.item_registry@;
                        nval.list = Some(t_list);
                        nval.prev = Some(prev_h);
                        let _ = self.item_registry.replace_item_at(nid, nval);
                        proof {
                            let items6 = self.item_registry@;
                            assert(unchanged_except(old(self).lists(), self.lists(), lid as int))
                                by {
                                lemma_unchanged_except_trans(
                                    old(self).lists(),
                                    lists1,
                                    lists_mid,
                                    lid as int,
                                );
                                lemma_unchanged_except_trans(
                                    old(self).lists(),
                                    lists_mid,
                                    lists2,
                                    lid as int,
                                );
                            }
                            assert(unchanged_except2(
                                old(self).items(),
                                items6,
                                nid as int,
                                pid as int,
                            )) by {
                                lemma_unchanged_except_widen(
                                    old(self).items(),
                                    items3,
                                    nid as int,
                                    pid as int,
                                );
                                lemma_unchanged_except_widen(
                                    items3,
                                    items5a,
                                    pid as int,
                                    nid as int,
                                );
                                lemma_unchanged_except_widen(
                                    items5a,
                                    items5,
                                    pid as int,
                                    nid as int,
                                );
                                lemma_unchanged_except_widen(
                                    items5,
                                    items6a,
                                    nid as int,
                                    pid as int,
                                );
                                lemma_unchanged_except_widen(
                                    items6a,
                                    items6,
                                    nid as int,
                                    pid as int,
                                );
                                lemma_unchanged_except2_trans(
                                    old(self).items(),
                                    items3,
                                    items5a,
                                    nid as int,
                                    pid as int,
                                );
                                lemma_unchanged_except2_trans(
                                    old(self).items(),
                                    items5a,
                                    items5,
                                    nid as int,
                                    pid as int,
                                );
                                lemma_unchanged_except2_trans(
                                    old(self).items(),
                                    items5,
                                    items6a,
                                    nid as int,
                                    pid as int,
                                );
                                lemma_unchanged_except2_trans(
                                    old(self).items(),
                                    items6a,
                                    items6,
                                    nid as int,
                                    pid as int,
                                );
                            }
                            assert(old(self).items().is_live(pid as int));
                            assert(items3.value(pid as int) == old(self).items().value(
                                pid as int,
                            ));
                            assert(items5.value(pid as int).prev_id() == old(
                                self,
                            ).items().value(pid as int).prev_id());
                            assert(items5.is_live(pid as int));
                            assert(items6a.value(pid as int) == items5.value(pid as int));
                            assert(items6.value(pid as int) == items5.value(pid as int));
                            assert(items6.value(pid as int).prev_id() == old(
                                self,
                            ).items().value(pid as int).prev_id());
                            lemma_overlay_after_append_tail(
                                old(self).items(),
                                old(self).lists(),
                                self.items(),
                                self.lists(),
                                lid as int,
                                nid as int,
                                pid as int,
                            );
                        }
                    },
                }
                Ok(nh)
            },
        }
    }
}

/// A list whose chain avoids the two touched nodes keeps its
/// well-formedness when everything else is framed.
proof fn lemma_list_wf_frame(
    items: RegistryView<Item>,
    items2: RegistryView<Item>,
    lists: RegistryView<List>,
    lists2: RegistryView<List>,
    j: int,
    n1: int,
    n2: int,
)
    requires
        list_wf(items, lists, j),
        lists2.is_live(j),
        lists2.value(j) == lists.value(j),
        lists2.rc(j) == lists.rc(j),
        unchanged_except2(items, items2, n1, n2),
        !lists.value(j).spec_chain().contains(n1),
        !lists.value(j).spec_chain().contains(n2),
    ensures
        list_wf(items2, lists2, j),
{
    let c = lists.value(j).spec_chain();
    assert forall|k: int| 0 <= k < c.len() implies #[trigger] chain_node_ok(items2, j, c, k) by {
        assert(chain_node_ok(items, j, c, k));
        if c[k] == n1 {
            assert(c.contains(n1));
        }
        if c[k] == n2 {
            assert(c.contains(n2));
        }
        assert(items2.value(c[k]) == items.value(c[k]));
        assert(items2.rc(c[k]) == items.rc(c[k]));
    }
}

/// Appending the first node to an empty list leaves the overlay well
/// formed.
proof fn lemma_overlay_after_append_first(
    items: RegistryView<Item>,
    lists: RegistryView<List>,
    items2: RegistryView<Item>,
    lists2: RegistryView<List>,
    lid: int,
    nid: int,
)
    requires
        overlay_wf(items, lists),
        lists.is_live(lid),
        lists.value(lid).spec_chain().len() == 0,
        !items.is_live(nid),
        lists2.is_live(lid),
        lists2.rc(lid) >= lists.rc(lid) + 1,
        lists2.value(lid).spec_chain() == lists.value(lid).spec_chain().push(nid),
        lists2.value(lid).spec_count() == 1,
        lists2.value(lid).first_id() == Some(nid),
        lists2.value(lid).last_id() == Some(nid),
        unchanged_except(lists, lists2, lid),
        items2.is_live(nid),
        items2.rc(nid) >= 2,
        items2.value(nid).list_id() == Some(lid),
        items2.value(nid).prev_id() is None,
        items2.value(nid).next_id() is None,
        items2.value(nid).payload_id() is Some,
        unchanged_except(items, items2, nid),
    ensures
        overlay_wf(items2, lists2),
{
    let c = lists.value(lid).spec_chain();
    let c2 = lists2.value(lid).spec_chain();
    assert(c2.len() == 1 && c2[0] == nid);
    assert forall|j: int| lists2.is_live(j) implies #[trigger] list_wf(items2, lists2, j) by {
        if j == lid {
            assert(list_wf(items2, lists2, lid));
        } else {
            assert(lists.is_live(j));
            assert(list_wf(items, lists, j));
            let cj = lists.value(j).spec_chain();
            assert(!cj.contains(nid)) by {
                if cj.contains(nid) {
                    let k = choose|k: int| 0 <= k < cj.len() && cj[k] == nid;
                    assert(chain_node_ok(items, j, cj, k));
                }
            }
            lemma_unchanged_except_widen(items, items2, nid, nid);
            lemma_list_wf_frame(items, items2, lists, lists2, j, nid, nid);
        }
    }
    assert forall|m: int| items2.is_live(m) implies #[trigger] node_wf(items2, lists2, m) by {
        if m == nid {
            assert(c2.contains(nid)) by {
                assert(c2[0] == nid);
            }
        } else {
            assert(items.is_live(m));
            assert(node_wf(items, lists, m));
            assert(items2.value(m) == items.value(m));
            match items.value(m).list_id() {
                Some(owner) => {
                    assert(lists.is_live(owner));
                    if owner == lid {
                        assert(lists.value(lid).spec_chain().contains(m));
                        assert(false);
                    } else {
                        assert(lists2.value(owner) == lists.value(owner));
                    }
                },
                None => {},
            }
        }
    }
}

/// Appending a node after the current tail of a non-empty list leaves the
/// overlay well formed.
proof fn lemma_overlay_after_append_tail(
    items: RegistryView<Item>,
    lists: RegistryView<List>,
    items2: RegistryView<Item>,
    lists2: RegistryView<List>,
    lid: int,
    nid: int,
    pid: int,
)
    requires
        overlay_wf(items, lists),
        lists.is_live(lid),
        lists.value(lid).spec_chain().len() > 0,
        pid == lists.value(lid).spec_chain().last(),
        !items.is_live(nid),
        lists2.is_live(lid),
        lists2.rc(lid) >= lists.rc(lid) + 1,
        lists2.value(lid).spec_chain() == lists.value(lid).spec_chain().push(nid),
        lists2.value(lid).spec_count() == lists.value(lid).spec_count() + 1,
        lists2.value(lid).first_id() == lists.value(lid).first_id(),
        lists2.value(lid).last_id() == Some(nid),
        unchanged_except(lists, lists2, lid),
        items2.is_live(nid),
        items2.rc(nid) >= 2,
        items2.value(nid).list_id() == Some(lid),
        items2.value(nid).prev_id() == Some(pid),
        items2.value(nid).next_id() is None,
        items2.value(nid).payload_id() is Some,
        items2.is_live(pid),
        items2.rc(pid) == items.rc(pid),
        items2.value(pid).next_id() == Some(nid),
        items2.value(pid).prev_id() == items.value(pid).prev_id(),
        items2.value(pid).list_id() == items.value(pid).list_id(),
        items2.value(pid).payload_id() == items.value(pid).payload_id(),
        unchanged_except2(items, items2, nid, pid),
    ensures
        overlay_wf(items2, lists2),
{
    let c = lists.value(lid).spec_chain();
    let c2 = lists2.value(lid).spec_chain();
    assert(list_wf(items, lists, lid));
    assert(c.last() == c[c.len() - 1]);
    assert(chain_node_ok(items, lid, c, c.len() - 1));
    assert(items.value(pid).list_id() == Some(lid));
    assert(c2.len() == c.len() + 1);
    assert(forall|k: int| 0 <= k < c.len() ==> c2[k] == c[k]);
    assert(c2[c.len() as int] == nid);
    assert(c2.no_duplicates()) by {
        assert forall|a: int, b: int|
            0 <= a < c2.len() && 0 <= b < c2.len() && a != b implies c2[a] != c2[b] by {
            if a < c.len() && b < c.len() {
            } else if a < c.len() {
                assert(chain_node_ok(items, lid, c, a));
            } else if b < c.len() {
                assert(chain_node_ok(items, lid, c, b));
            }
        }
    }
    assert forall|j: int| lists2.is_live(j) implies #[trigger] list_wf(items2, lists2, j) by {
        if j == lid {
            assert forall|k: int| 0 <= k < c2.len() implies #[trigger] chain_node_ok(
                items2,
                lid,
                c2,
                k,
            ) by {
                if k < c.len() - 1 {
                    assert(c2[k] == c[k]);
                    assert(chain_node_ok(items, lid, c, k));
                    assert(c[k] != pid);
                    assert(c[k] != nid);
                    assert(items2.value(c[k]) == items.value(c[k]));
                    assert(items2.rc(c[k]) == items.rc(c[k]));
                    assert(c2[k - 1] == c[k - 1] || k == 0);
                    assert(c2[k + 1] == c[k + 1]);
                } else if k == c.len() - 1 {
                    assert(c2[k] == pid);
                    assert(chain_node_ok(items, lid, c, k));
                    assert(c2[k + 1] == nid);
                    assert(k == 0 || c2[k - 1] == c[k - 1]);
                } else {
                    assert(c2[k] == nid);
                    assert(c2[k - 1] == pid);
                }
            }
            assert(list_wf(items2, lists2, lid));
        } else {
            assert(lists.is_live(j));
            assert(list_wf(items, lists, j));
            let cj = lists.value(j).spec_chain();
            assert(!cj.contains(nid)) by {
                if cj.contains(nid) {
                    let k = choose|k: int| 0 <= k < cj.len() && cj[k] == nid;
                    assert(chain_node_ok(items, j, cj, k));
                }
            }
            assert(!cj.contains(pid)) by {
                if cj.contains(pid) {
                    let k = choose|k: int| 0 <= k < cj.len() && cj[k] == pid;
                    assert(chain_node_ok(items, j, cj, k));
                }
            }
            lemma_list_wf_frame(items, items2, lists, lists2, j, nid, pid);
        }
    }
    assert forall|m: int| items2.is_live(m) implies #[trigger] node_wf(items2, lists2, m) by {
        if m == nid {
            assert(c2[c.len() as int] == nid);
            assert(c2.contains(nid));
        } else if m == pid {
            assert(c2[c.len() - 1] == pid);
            assert(c2.contains(pid));
        } else {
            assert(items.is_live(m));
            assert(node_wf(items, lists, m));
            assert(items2.value(m) == items.value(m));
            match items.value(m).list_id() {
                Some(owner) => {
                    assert(lists.is_live(owner));
                    if owner == lid {
                        let cm = lists.value(lid).spec_chain();
                        assert(cm.contains(m));
                        let k = choose|k: int| 0 <= k < cm.len() && cm[k] == m;
                        assert(c2[k] == m);
                        assert(c2.contains(m));
                    } else {
                        assert(lists2.value(owner) == lists.value(owner));
                    }
                },
                None => {},
            }
        }
    }
}

/// Inserting a fresh, empty list leaves the overlay well formed: the new
/// list has an empty chain, every old list is unchanged, and no node is
/// touched.
proof fn lemma_overlay_after_list_insert(
    items: RegistryView<Item>,
    lists: RegistryView<List>,
    lists2: RegistryView<List>,
    lid: int,
)
    requires
        overlay_wf(items, lists),
        !lists.is_live(lid),
        lists2.is_live(lid),
        lists2.rc(lid) == 1,
        lists2.value(lid).spec_count() == 0,
        lists2.value(lid).first_id() is None,
        lists2.value(lid).last_id() is None,
        lists2.value(lid).spec_chain() == Seq::<int>::empty(),
        unchanged_except(lists, lists2, lid),
    ensures
        overlay_wf(items, lists2),
{
    assert forall|j: int| lists2.is_live(j) implies #[trigger] list_wf(items, lists2, j) by {
        if j == lid {
            assert(lists2.value(lid).spec_chain().len() == 0);
        } else {
            assert(lists.is_live(j));
            assert(list_wf(items, lists, j));
        }
    }
    assert forall|nid: int| items.is_live(nid) implies #[trigger] node_wf(items, lists2, nid) by {
        assert(node_wf(items, lists, nid));
        match items.value(nid).list_id() {
            Some(owner) => {
                assert(lists.is_live(owner));
                assert(owner != lid);
            },
            None => {},
        }
    }
}

impl ListRegistry {
    /// Removes the node `node_h` from the list that owns it, relinking its
    /// neighbours (or the list boundaries) around it and clearing the
    /// node's own links.  The node itself stays allocated — the caller's
    /// handle and the payload handle inside it are untouched — and a
    /// detached node is left alone.
    pub fn delete(&mut self, node_h: &Handle)
        requires
            old(self).wf(),
            old(self).items().is_live(node_h@),
            old(self).items().value(node_h@).list_id() is Some ==> old(self).items().rc(node_h@)
                >= 3,
        ensures
            final(self).wf(),
            final(self).items().pages == old(self).items().pages,
            final(self).lists().pages == old(self).lists().pages,
            match old(self).items().value(node_h@).list_id() {
                None => final(self).items() == old(self).items() && final(self).lists() == old(
                    self,
                ).lists(),
                Some(lid) => ({
                    let c = old(self).lists().value(lid).spec_chain();
                    let p = old(self).items().value(node_h@).prev_id();
                    let x = old(self).items().value(node_h@).next_id();
                    &&& final(self).items().is_live(node_h@)
                    &&& final(self).items().rc(node_h@) == old(self).items().rc(node_h@) - 2
                    &&& final(self).items().value(node_h@).list_id() is None
                    &&& final(self).items().value(node_h@).prev_id() is None
                    &&& final(self).items().value(node_h@).next_id() is None
                    &&& final(self).items().value(node_h@).payload_id() == old(
                        self,
                    ).items().value(node_h@).payload_id()
                    &&& unchanged_except3(
                        old(self).items(),
                        final(self).items(),
                        node_h@,
                        opt_id_or(p, node_h@),
                        opt_id_or(x, node_h@),
                    )
                    &&& unchanged_except(old(self).lists(), final(self).lists(), lid)
                    &&& (old(self).lists().rc(lid) > 1 ==> final(self).lists().is_live(lid)
                        && final(self).lists().rc(lid) == old(self).lists().rc(lid) - 1 && final(self).lists().value(lid).spec_count() == c.len() - 1 && (exists|k: int|
                        0 <= k < c.len() && c[k] == node_h@ && final(self).lists().value(
                            lid,
                        ).spec_chain() == #[trigger] c.remove(k)))
                    &&& (old(self).lists().rc(lid) == 1 ==> !final(self).lists().is_live(lid))
                    &&& (p matches Some(pp) ==> final(self).items().is_live(pp) && final(self).items().rc(pp) == old(self).items().rc(pp) && final(self).items().value(
                        pp,
                    ).next_id() == x && final(self).items().value(pp).prev_id() == old(
                        self,
                    ).items().value(pp).prev_id() && final(self).items().value(pp).list_id() == old(
                        self,
                    ).items().value(pp).list_id() && final(self).items().value(pp).payload_id()
                        == old(self).items().value(pp).payload_id())
                    &&& (x matches Some(xx) ==> final(self).items().is_live(xx) && final(self).items().rc(xx) == old(self).items().rc(xx) && final(self).items().value(
                        xx,
                    ).prev_id() == p && final(self).items().value(xx).next_id() == old(
                        self,
                    ).items().value(xx).next_id() && final(self).items().value(xx).list_id() == old(
                        self,
                    ).items().value(xx).list_id() && final(self).items().value(xx).payload_id()
                        == old(self).items().value(xx).payload_id())
                }),
            },
    {
        let nid = node_h.id();
        let mut nval = self.item_registry.replace_item_at(nid, Item::empty());
        let ghost items_t1 = self.item_registry@;
        match nval.list.take() {
            None => {
                let _ = self.item_registry.replace_item_at(nid, nval);
                proof {
                    assert(self.items().slots =~= old(self).items().slots);
                    assert(self.items() =~~= old(self).items());
                    assert(overlay_wf(self.items(), self.lists())) by {
                        assert(overlay_wf(old(self).items(), old(self).lists()));
                    }
                }
            },
            Some(list_tok) => {
                let lid = list_tok.id();
                let prev_opt = nval.prev.take();
                let next_opt = nval.next.take();
                let ghost c = old(self).lists().value(lid as int).spec_chain();
                let ghost k = choose|k: int| 0 <= k < c.len() && c[k] == nid as int;
                proof {
                    assert(node_wf(old(self).items(), old(self).lists(), nid as int));
                    assert(list_wf(old(self).items(), old(self).lists(), lid as int));
                    assert(c.contains(nid as int));
                    assert(0 <= k < c.len() && c[k] == nid as int);
                    assert(chain_node_ok(old(self).items(), lid as int, c, k));
                    if k > 0 {
                        assert(chain_node_ok(old(self).items(), lid as int, c, k - 1));
                    }
                    if k + 1 < c.len() {
                        assert(chain_node_ok(old(self).items(), lid as int, c, k + 1));
                    }
                    c.remove_ensures(k);
                }
                let ghost pk = opt_id_or(old(self).items().value(nid as int).prev_id(), nid as int);
                let ghost xk = opt_id_or(old(self).items().value(nid as int).next_id(), nid as int);
                let _ = self.item_registry.replace_item_at(nid, nval);
                let ghost items_t2 = self.item_registry@;
                proof {
                    lemma_unchanged_widen_to3(
                        old(self).items(),
                        items_t1,
                        nid as int,
                        nid as int,
                        pk,
                        xk,
                    );
                    lemma_unchanged_widen_to3(items_t1, items_t2, nid as int, nid as int, pk, xk);
                    lemma_unchanged_except3_trans(
                        old(self).items(),
                        items_t1,
                        items_t2,
                        nid as int,
                        pk,
                        xk,
                    );
                }
                let mut lval = self.list_registry.replace_item_at(lid, List::empty());
                let ghost lists_t1 = self.list_registry@;
                proof {
                    assert(lval == old(self).lists().value(lid as int));
                    assert(lval.spec_count() == c.len());
                    assert(old(self).lists().rc(lid as int) >= c.len());
                }
                lval.count = lval.count - 1;
                lval.chain = Ghost(c.remove(k));
                match (prev_opt, next_opt) {
                    (Some(ph), Some(xh)) => {
                        let pid = ph.id();
                        let xid = xh.id();
                        proof {
                            assert(0 < k < c.len() - 1);
                            assert(pid as int == c[k - 1] && xid as int == c[k + 1]);
                        }
                        let _ = self.list_registry.replace_item_at(lid, lval);
                        let ghost lists_t2 = self.list_registry@;
                        let mut pval = self.item_registry.replace_item_at(pid, Item::empty());
                        let ghost items_t3 = self.item_registry@;
                        let old_pn = pval.next.take();
                        pval.next = Some(xh);
                        let _ = self.item_registry.replace_item_at(pid, pval);
                        let ghost items_t4 = self.item_registry@;
                        let mut xval = self.item_registry.replace_item_at(xid, Item::empty());
                        let ghost items_t5 = self.item_registry@;
                        let old_xp = xval.prev.take();
                        xval.prev = Some(ph);
                        let _ = self.item_registry.replace_item_at(xid, xval);
                        let ghost items_t6 = self.item_registry@;
                        proof {
                            lemma_unchanged_widen_to3(
                                items_t2,
                                items_t3,
                                pid as int,
                                nid as int,
                                pk,
                                xk,
                            );
                            lemma_unchanged_widen_to3(
                                items_t3,
                                items_t4,
                                pid as int,
                                nid as int,
                                pk,
                                xk,
                            );
                            lemma_unchanged_widen_to3(
                                items_t4,
                                items_t5,
                                xid as int,
                                nid as int,
                                pk,
                                xk,
                            );
                            lemma_unchanged_widen_to3(
                                items_t5,
                                items_t6,
                                xid as int,
                                nid as int,
                                pk,
                                xk,
                            );
                            lemma_unchanged_except3_trans(
                                old(self).items(),
                                items_t2,
                                items_t3,
                                nid as int,
                                pk,
                                xk,
                            );
                            lemma_unchanged_except3_trans(
                                old(self).items(),
                                items_t3,
                                items_t4,
                                nid as int,
                                pk,
                                xk,
                            );
                            lemma_unchanged_except3_trans(
                                old(self).items(),
                                items_t4,
                                items_t5,
                                nid as int,
                                pk,
                                xk,
                            );
                            lemma_unchanged_except3_trans(
                                old(self).items(),
                                items_t5,
                                items_t6,
                                nid as int,
                                pk,
                                xk,
                            );
                        }
                        match old_pn {
                            Some(t) => {
                                let _ = self.item_registry.release_handle(t);
                            },
                            None => {},
                        }
                        let ghost items_t7 = self.item_registry@;
                        match old_xp {
                            Some(t) => {
                                let _ = self.item_registry.release_handle(t);
                            },
                            None => {},
                        }
                        let ghost items_t8 = self.item_registry@;
                        proof {
                            lemma_unchanged_widen_to3(
                                items_t6,
                                items_t7,
                                nid as int,
                                nid as int,
                                pk,
                                xk,
                            );
                            lemma_unchanged_widen_to3(
                                items_t7,
                                items_t8,
                                nid as int,
                                nid as int,
                                pk,
                                xk,
                            );
                            lemma_unchanged_except3_trans(
                                old(self).items(),
                                items_t6,
                                items_t7,
                                nid as int,
                                pk,
                                xk,
                            );
                            lemma_unchanged_except3_trans(
                                old(self).items(),
                                items_t7,
                                items_t8,
                                nid as int,
                                pk,
                                xk,
                            );
                        }
                        let _ = self.list_registry.release_handle(list_tok);
                        proof {
                            lemma_unchanged_except_trans(
                                old(self).lists(),
                                lists_t1,
                                lists_t2,
                                lid as int,
                            );
                            lemma_unchanged_except_trans(
                                old(self).lists(),
                                lists_t2,
                                self.lists(),
                                lid as int,
                            );
                            lemma_overlay_after_delete(
                                old(self).items(),
                                old(self).lists(),
                                self.items(),
                                self.lists(),
                                lid as int,
                                nid as int,
                                k,
                            );
                        }
                    },
                    (Some(ph), None) => {
                        let pid = ph.id();
                        proof {
                            assert(k == c.len() - 1 && k > 0);
                            assert(pid as int == c[k - 1]);
                        }
                        let old_last = lval.last.take();
                        lval.last = Some(ph);
                        let _ = self.list_registry.replace_item_at(lid, lval);
                        let ghost lists_t2 = self.list_registry@;
                        let mut pval = self.item_registry.replace_item_at(pid, Item::empty());
                        let ghost items_t3 = self.item_registry@;
                        let old_pn = pval.next.take();
                        let _ = self.item_registry.replace_item_at(pid, pval);
                        let ghost items_t4 = self.item_registry@;
                        match old_pn {
                            Some(t) => {
                                let _ = self.item_registry.release_handle(t);
                            },
                            None => {},
                        }
                        let ghost items_t5 = self.item_registry@;
                        match old_last {
                            Some(t) => {
                                let _ = self.item_registry.release_handle(t);
                            },
                            None => {},
                        }
                        let ghost items_t6 = self.item_registry@;
                        proof {
                            lemma_unchanged_widen_to3(
                                items_t2,
                                items_t3,
                                pid as int,
                                nid as int,
                                pk,
                                xk,
                            );
                            lemma_unchanged_widen_to3(
                                items_t3,
                                items_t4,
                                pid as int,
                                nid as int,
                                pk,
                                xk,
                            );
                            lemma_unchanged_widen_to3(
                                items_t4,
                                items_t5,
                                nid as int,
                                nid as int,
                                pk,
                                xk,
                            );
                            lemma_unchanged_widen_to3(
                                items_t5,
                                items_t6,
                                nid as int,
                                nid as int,
                                pk,
                                xk,
                            );
                            lemma_unchanged_except3_trans(
                                old(self).items(),
                                items_t2,
                                items_t3,
                                nid as int,
                                pk,
                                xk,
                            );
                            lemma_unchanged_except3_trans(
                                old(self).items(),
                                items_t3,
                                items_t4,
                                nid as int,
                                pk,
                                xk,
                            );
                            lemma_unchanged_except3_trans(
                                old(self).items(),
                                items_t4,
                                items_t5,
                                nid as int,
                                pk,
                                xk,
                            );
                            lemma_unchanged_except3_trans(
                                old(self).items(),
                                items_t5,
                                items_t6,
                                nid as int,
                                pk,
                                xk,
                            );
                        }
                        let _ = self.list_registry.release_handle(list_tok);
                        proof {
                            lemma_unchanged_except_trans(
                                old(self).lists(),
                                lists_t1,
                                lists_t2,
                                lid as int,
                            );
                            lemma_unchanged_except_trans(
                                old(self).lists(),
                                lists_t2,
                                self.lists(),
                                lid as int,
                            );
                            lemma_overlay_after_delete(
                                old(self).items(),
                                old(self).lists(),
                                self.items(),
                                self.lists(),
                                lid as int,
                                nid as int,
                                k,
                            );
                        }
                    },
                    (None, Some(xh)) => {
                        let xid = xh.id();
                        proof {
                            assert(k == 0 && c.len() > 1);
                            assert(xid as int == c[k + 1]);
                        }
                        let old_first = lval.first.take();
                        lval.first = Some(xh);
                        let _ = self.list_registry.replace_item_at(lid, lval);
                        let ghost lists_t2 = self.list_registry@;
                        let mut xval = self.item_registry.replace_item_at(xid, Item::empty());
                        let ghost items_t3 = self.item_registry@;
                        let old_xp = xval.prev.take();
                        let _ = self.item_registry.replace_item_at(xid, xval);
                        let ghost items_t4 = self.item_registry@;
                        match old_xp {
                            Some(t) => {
                                let _ = self.item_registry.release_handle(t);
                            },
                            None => {},
                        }
                        let ghost items_t5 = self.item_registry@;
                        match old_first {
                            Some(t) => {
                                let _ = self.item_registry.release_handle(t);
                            },
                            None => {},
                        }
                        let ghost items_t6 = self.item_registry@;
                        proof {
                            lemma_unchanged_widen_to3(
                                items_t2,
                                items_t3,
                                xid as int,
                                nid as int,
                                pk,
                                xk,
                            );
                            lemma_unchanged_widen_to3(
                                items_t3,
                                items_t4,
                                xid as int,
                                nid as int,
                                pk,
                                xk,
                            );
                            lemma_unchanged_widen_to3(
                                items_t4,
                                items_t5,
                                nid as int,
                                nid as int,
                                pk,
                                xk,
                            );
                            lemma_unchanged_widen_to3(
                                items_t5,
                                items_t6,
                                nid as int,
                                nid as int,
                                pk,
                                xk,
                            );
                            lemma_unchanged_except3_trans(
                                old(self).items(),
                                items_t2,
                                items_t3,
                                nid as int,
                                pk,
                                xk,
                            );
                            lemma_unchanged_except3_trans(
                                old(self).items(),
                                items_t3,
                                items_t4,
                                nid as int,
                                pk,
                                xk,
                            );
                            lemma_unchanged_except3_trans(
                                old(self).items(),
                                items_t4,
                                items_t5,
                                nid as int,
                                pk,
                                xk,
                            );
                            lemma_unchanged_except3_trans(
                                old(self).items(),
                                items_t5,
                                items_t6,
                                nid as int,
                                pk,
                                xk,
                            );
                        }
                        let _ = self.list_registry.release_handle(list_tok);
                        proof {
                            lemma_unchanged_except_trans(
                                old(self).lists(),
                                lists_t1,
                                lists_t2,
                                lid as int,
                            );
                            lemma_unchanged_except_trans(
                                old(self).lists(),
                                lists_t2,
                                self.lists(),
                                lid as int,
                            );
                            lemma_overlay_after_delete(
                                old(self).items(),
                                old(self).lists(),
                                self.items(),
                                self.lists(),
                                lid as int,
                                nid as int,
                                k,
                            );
                        }
                    },
                    (None, None) => {
                        proof {
                            assert(k == 0 && c.len() == 1);
                        }
                        let old_first = lval.first.take();
                        let old_last = lval.last.take();
                        let _ = self.list_registry.replace_item_at(lid, lval);
                        let ghost lists_t2 = self.list_registry@;
                        match old_first {
                            Some(t) => {
                                let _ = self.item_registry.release_handle(t);
                            },
                            None => {},
                        }
                        let ghost items_t3 = self.item_registry@;
                        match old_last {
                            Some(t) => {
                                let _ = self.item_registry.release_handle(t);
                            },
                            None => {},
                        }
                        let ghost items_t4 = self.item_registry@;
                        proof {
                            lemma_unchanged_widen_to3(
                                items_t2,
                                items_t3,
                                nid as int,
                                nid as int,
                                pk,
                                xk,
                            );
                            lemma_unchanged_widen_to3(
                                items_t3,
                                items_t4,
                                nid as int,
                                nid as int,
                                pk,
                                xk,
                            );
                            lemma_unchanged_except3_trans(
                                old(self).items(),
                                items_t2,
                                items_t3,
                                nid as int,
                                pk,
                                xk,
                            );
                            lemma_unchanged_except3_trans(
                                old(self).items(),
                                items_t3,
                                items_t4,
                                nid as int,
                                pk,
                                xk,
                            );
                        }
                        let _ = self.list_registry.release_handle(list_tok);
                        proof {
                            lemma_unchanged_except_trans(
                                old(self).lists(),
                                lists_t1,
                                lists_t2,
                                lid as int,
                            );
                            lemma_unchanged_except_trans(
                                old(self).lists(),
                                lists_t2,
                                self.lists(),
                                lid as int,
                            );
                            lemma_overlay_after_delete(
                                old(self).items(),
                                old(self).lists(),
                                self.items(),
                                self.lists(),
                                lid as int,
                                nid as int,
                                k,
                            );
                        }
                    },
                }
            },
        }
    }
}

/// Removing chain position `k` of list `lid` and detaching the node leaves
/// the overlay well formed, whether or not the list itself was freed by the
/// node's released list handle.
proof fn lemma_overlay_after_delete(
    items: RegistryView<Item>,
    lists: RegistryView<List>,
    items2: RegistryView<Item>,
    lists2: RegistryView<List>,
    lid: int,
    nid: int,
    k: int,
)
    requires
        overlay_wf(items, lists),
        lists.is_live(lid),
        0 <= k < lists.value(lid).spec_chain().len(),
        lists.value(lid).spec_chain()[k] == nid,
        items.is_live(nid),
        items2.is_live(nid),
        items2.rc(nid) >= 1,
        items2.value(nid).list_id() is None,
        items2.value(nid).prev_id() is None,
        items2.value(nid).next_id() is None,
        items2.value(nid).payload_id() is Some,
        unchanged_except3(
            items,
            items2,
            nid,
            opt_id_or(items.value(nid).prev_id(), nid),
            opt_id_or(items.value(nid).next_id(), nid),
        ),
        k > 0 ==> ({
            let pp = lists.value(lid).spec_chain()[k - 1];
            &&& items2.is_live(pp)
            &&& items2.rc(pp) == items.rc(pp)
            &&& items2.value(pp).next_id() == (if k + 1 < lists.value(lid).spec_chain().len() {
                Some(lists.value(lid).spec_chain()[k + 1])
            } else {
                Option::<int>::None
            })
            &&& items2.value(pp).prev_id() == items.value(pp).prev_id()
            &&& items2.value(pp).list_id() == items.value(pp).list_id()
            &&& items2.value(pp).payload_id() == items.value(pp).payload_id()
        }),
        k + 1 < lists.value(lid).spec_chain().len() ==> ({
            let xx = lists.value(lid).spec_chain()[k + 1];
            &&& items2.is_live(xx)
            &&& items2.rc(xx) == items.rc(xx)
            &&& items2.value(xx).prev_id() == (if k > 0 {
                Some(lists.value(lid).spec_chain()[k - 1])
            } else {
                Option::<int>::None
            })
            &&& items2.value(xx).next_id() == items.value(xx).next_id()
            &&& items2.value(xx).list_id() == items.value(xx).list_id()
            &&& items2.value(xx).payload_id() == items.value(xx).payload_id()
        }),
        unchanged_except(lists, lists2, lid),
        lists.rc(lid) == 1 ==> !lists2.is_live(lid),
        lists.rc(lid) > 1 ==> ({
            let c = lists.value(lid).spec_chain();
            &&& lists2.is_live(lid)
            &&& lists2.rc(lid) == lists.rc(lid) - 1
            &&& lists2.value(lid).spec_count() == c.len() - 1
            &&& lists2.value(lid).spec_chain() == c.remove(k)
            &&& lists2.value(lid).first_id() == (if c.len() == 1 {
                Option::<int>::None
            } else if k == 0 {
                Some(c[1])
            } else {
                lists.value(lid).first_id()
            })
            &&& lists2.value(lid).last_id() == (if c.len() == 1 {
                Option::<int>::None
            } else if k == c.len() - 1 {
                Some(c[c.len() - 2])
            } else {
                lists.value(lid).last_id()
            })
        }),
    ensures
        overlay_wf(items2, lists2),
{
    let c = lists.value(lid).spec_chain();
    let c2 = c.remove(k);
    assert(list_wf(items, lists, lid));
    assert(chain_node_ok(items, lid, c, k));
    c.remove_ensures(k);
    let pk = opt_id_or(items.value(nid).prev_id(), nid);
    let xk = opt_id_or(items.value(nid).next_id(), nid);
    assert(k > 0 ==> pk == c[k - 1]);
    assert(k == 0 ==> pk == nid);
    assert(k + 1 < c.len() ==> xk == c[k + 1]);
    assert(k + 1 == c.len() ==> xk == nid);
    // Any chain position other than k, k-1, k+1 is untouched.
    assert forall|m: int|
        0 <= m < c.len() && m != k && m != k - 1 && m != k + 1 implies #[trigger] items2.is_live(
        c[m],
    ) && items2.value(c[m]) == items.value(c[m]) && items2.rc(c[m]) == items.rc(c[m]) by {
        assert(chain_node_ok(items, lid, c, m));
        assert(c[m] != nid && c[m] != pk && c[m] != xk);
    }
    assert forall|j: int| lists2.is_live(j) implies #[trigger] list_wf(items2, lists2, j) by {
        if j == lid {
            assert(lists.rc(lid) > 1);
            assert forall|m: int| 0 <= m < c2.len() implies #[trigger] chain_node_ok(
                items2,
                lid,
                c2,
                m,
            ) by {
                if m < k - 1 {
                    assert(c2[m] == c[m]);
                    assert(chain_node_ok(items, lid, c, m));
                    assert(c[m] != nid && c[m] != pk && c[m] != xk);
                    assert(m + 1 < c2.len() ==> c2[m + 1] == (if m + 1 < k {
                        c[m + 1]
                    } else {
                        c[m + 2]
                    }));
                } else if m == k - 1 {
                    assert(c2[m] == c[m]);
                    assert(chain_node_ok(items, lid, c, m));
                } else {
                    assert(c2[m] == c[m + 1]);
                    assert(chain_node_ok(items, lid, c, m + 1));
                    if m > k {
                        assert(c[m + 1] != nid && c[m + 1] != pk && c[m + 1] != xk);
                    }
                }
            }
            assert(list_wf(items2, lists2, lid));
        } else {
            assert(lists.is_live(j));
            assert(list_wf(items, lists, j));
            let cj = lists.value(j).spec_chain();
            assert(!cj.contains(nid)) by {
                if cj.contains(nid) {
                    let m = choose|m: int| 0 <= m < cj.len() && cj[m] == nid;
                    assert(chain_node_ok(items, j, cj, m));
                }
            }
            assert(!cj.contains(pk)) by {
                if pk != nid && cj.contains(pk) {
                    let m = choose|m: int| 0 <= m < cj.len() && cj[m] == pk;
                    assert(chain_node_ok(items, j, cj, m));
                    assert(chain_node_ok(items, lid, c, k - 1));
                }
            }
            assert(!cj.contains(xk)) by {
                if xk != nid && cj.contains(xk) {
                    let m = choose|m: int| 0 <= m < cj.len() && cj[m] == xk;
                    assert(chain_node_ok(items, j, cj, m));
                    assert(chain_node_ok(items, lid, c, k + 1));
                }
            }
            lemma_list_wf_frame3(items, items2, lists, lists2, j, nid, pk, xk);
        }
    }
    assert forall|m: int| items2.is_live(m) implies #[trigger] node_wf(items2, lists2, m) by {
        if m == nid {
            assert(node_wf(items2, lists2, nid));
        } else if k > 0 && m == c[k - 1] {
            assert(chain_node_ok(items, lid, c, k - 1));
            assert(lists.rc(lid) >= c.len());
            assert(lists2.is_live(lid));
            assert(c2[k - 1] == c[k - 1]);
            assert(c2.contains(m));
            assert(items2.value(m).list_id() == Some(lid));
            assert(node_wf(items2, lists2, m));
        } else if k + 1 < c.len() && m == c[k + 1] {
            assert(chain_node_ok(items, lid, c, k + 1));
            assert(lists.rc(lid) >= c.len());
            assert(lists2.is_live(lid));
            assert(c2[k] == c[k + 1]);
            assert(c2.contains(m));
            assert(items2.value(m).list_id() == Some(lid));
            assert(node_wf(items2, lists2, m));
        } else {
            assert(items.is_live(m));
            assert(node_wf(items, lists, m));
            assert(items2.value(m) == items.value(m));
            match items.value(m).list_id() {
                Some(owner) => {
                    assert(lists.is_live(owner));
                    if owner == lid {
                        let cm = lists.value(lid).spec_chain();
                        assert(cm.contains(m));
                        let mk = choose|mk: int| 0 <= mk < cm.len() && cm[mk] == m;
                        assert(m != nid);
                        assert(mk != k);
                        assert(lists.rc(lid) >= c.len());
                        assert(c.len() >= 2);
                        assert(lists2.is_live(lid));
                        if mk < k {
                            assert(c2[mk] == cm[mk]);
                        } else {
                            assert(c2[mk - 1] == cm[mk]);
                        }
                        assert(c2.contains(m));
                    } else {
                        assert(lists2.value(owner) == lists.value(owner));
                    }
                },
                None => {},
            }
        }
    }
}

impl ListRegistry {
    /// Releases one handle to a list.  When this was the last handle — which
    /// can only happen once the list is empty, since every node holds one —
    /// the list's slot is freed for reuse.
    pub fn release_list_handle(&mut self, h: Handle)
        requires
            old(self).wf(),
            old(self).lists().is_live(h@),
            old(self).lists().rc(h@) > old(self).lists().value(h@).spec_count(),
        ensures
            final(self).wf(),
            final(self).items() == old(self).items(),
            unchanged_except(old(self).lists(), final(self).lists(), h@),
            old(self).lists().rc(h@) > 1 ==> final(self).lists().is_live(h@) && final(self).lists().rc(h@) == old(self).lists().rc(h@) - 1 && final(self).lists().value(h@)
                == old(self).lists().value(h@),
            old(self).lists().rc(h@) == 1 ==> !final(self).lists().is_live(h@),
    {
        let ghost lid = h@;
        let _ = self.list_registry.release_handle(h);
        proof {
            let it = old(self).items();
            let pre_l = old(self).lists();
            let post_l = self.lists();
            assert(list_wf(it, pre_l, lid));
            assert forall|j: int| post_l.is_live(j) implies #[trigger] list_wf(
                it,
                post_l,
                j,
            ) by {
                assert(pre_l.is_live(j));
                assert(list_wf(it, pre_l, j));
            }
            assert forall|m: int| it.is_live(m) implies #[trigger] node_wf(it, post_l, m) by {
                assert(node_wf(it, pre_l, m));
                match it.value(m).list_id() {
                    Some(owner) => {
                        if owner == lid {
                            assert(pre_l.value(lid).spec_chain().contains(m));
                            assert(pre_l.value(lid).spec_chain().len() > 0);
                            assert(pre_l.rc(lid) > 1);
                        }
                    },
                    None => {},
                }
            }
        }
    }

    /// Releases one handle to a link node.  When this was the last handle —
    /// only possible once the node is detached — the node's slot is freed
    /// and the payload handle it wrapped is handed back, so the caller can
    /// release that one in the payload's own registry.
    pub fn release_item_handle(&mut self, h: Handle) -> (r: Option<Handle>)
        requires
            old(self).wf(),
            old(self).items().is_live(h@),
            old(self).items().value(h@).list_id() is Some ==> old(self).items().rc(h@) >= 3,
        ensures
            final(self).wf(),
            final(self).lists() == old(self).lists(),
            unchanged_except(old(self).items(), final(self).items(), h@),
            r is Some <==> old(self).items().rc(h@) == 1,
            match r {
                Some(p) => old(self).items().value(h@).payload_id() == Some(p@) && !final(self).items().is_live(h@),
                None => final(self).items().is_live(h@) && final(self).items().rc(h@) == old(
                    self,
                ).items().rc(h@) - 1 && final(self).items().value(h@) == old(self).items().value(
                    h@,
                ),
            },
    {
        let ghost nid = h@;
        proof {
            assert(node_wf(old(self).items(), old(self).lists(), nid));
        }
        match self.item_registry.release_handle(h) {
            None => {
                proof {
                    let pre_i = old(self).items();
                    let post_i = self.items();
                    let ls = old(self).lists();
                    assert forall|j: int| ls.is_live(j) implies #[trigger] list_wf(
                        post_i,
                        ls,
                        j,
                    ) by {
                        assert(list_wf(pre_i, ls, j));
                        let cj = ls.value(j).spec_chain();
                        assert forall|k: int| 0 <= k < cj.len() implies #[trigger] chain_node_ok(
                            post_i,
                            j,
                            cj,
                            k,
                        ) by {
                            assert(chain_node_ok(pre_i, j, cj, k));
                            if cj[k] == nid {
                                assert(pre_i.value(nid).list_id() == Some(j));
                                assert(pre_i.rc(nid) >= 3);
                            }
                        }
                    }
                    assert forall|m: int| post_i.is_live(m) implies #[trigger] node_wf(
                        post_i,
                        ls,
                        m,
                    ) by {
                        assert(pre_i.is_live(m));
                        assert(node_wf(pre_i, ls, m));
                        if m != nid {
                            assert(post_i.value(m) == pre_i.value(m));
                        }
                    }
                }
                None
            },
            Some(mut node) => {
                let p = node.handle.take();
                proof {
                    let pre_i = old(self).items();
                    let post_i = self.items();
                    let ls = old(self).lists();
                    assert(pre_i.value(nid).list_id() is None);
                    assert forall|j: int| ls.is_live(j) implies #[trigger] list_wf(
                        post_i,
                        ls,
                        j,
                    ) by {
                        assert(list_wf(pre_i, ls, j));
                        let cj = ls.value(j).spec_chain();
                        assert forall|k: int| 0 <= k < cj.len() implies #[trigger] chain_node_ok(
                            post_i,
                            j,
                            cj,
                            k,
                        ) by {
                            assert(chain_node_ok(pre_i, j, cj, k));
                            assert(cj[k] != nid);
                        }
                    }
                    assert forall|m: int| post_i.is_live(m) implies #[trigger] node_wf(
                        post_i,
                        ls,
                        m,
                    ) by {
                        assert(pre_i.is_live(m));
                        assert(node_wf(pre_i, ls, m));
                        assert(m != nid);
                        assert(post_i.value(m) == pre_i.value(m));
                    }
                }
                p
            },
        }
    }

    /// The payload ids of the list's nodes, in forward order: starting from
    /// `first` and repeatedly following `next`.
    pub fn iter_forward(&self, list_h: &Handle) -> (r: Vec<usize>)
        requires
            self.wf(),
            self.lists().is_live(list_h@),
        ensures
            ({
                let c = self.lists().value(list_h@).spec_chain();
                &&& r@.len() == c.len()
                &&& forall|k: int|
                    0 <= k < c.len() ==> Some(#[trigger] r@[k] as int) == self.items().value(
                        c[k],
                    ).payload_id()
            }),
    {
        let lid = list_h.id();
        let ghost c = self.lists().value(lid as int).spec_chain();
        proof {
            assert(list_wf(self.items(), self.lists(), lid as int));
        }
        let l = self.list_registry.item_at(lid);
        let mut cur: Option<usize> = match &l.first {
            Some(h) => Some(h.id()),
            None => None,
        };
        let mut out: Vec<usize> = Vec::new();
        let ghost mut k: int = 0;
        while cur.is_some()
            invariant
                self.wf(),
                self.lists().is_live(lid as int),
                c == self.lists().value(lid as int).spec_chain(),
                0 <= k <= c.len(),
                out@.len() == k,
                forall|m: int|
                    0 <= m < k ==> Some(#[trigger] out@[m] as int) == self.items().value(
                        c[m],
                    ).payload_id(),
                cur is Some <==> k < c.len(),
                cur matches Some(id) ==> id as int == c[k],
            decreases c.len() - k,
        {
            let id = match cur {
                Some(i) => i,
                None => vstd::pervasive::unreached(),
            };
            proof {
                assert(list_wf(self.items(), self.lists(), lid as int));
                assert(chain_node_ok(self.items(), lid as int, c, k));
            }
            let node = self.item_registry.item_at(id);
            let pid = match &node.handle {
                Some(h) => h.id(),
                None => vstd::pervasive::unreached(),
            };
            out.push(pid);
            cur = match &node.next {
                Some(h) => Some(h.id()),
                None => None,
            };
            proof {
                k = k + 1;
            }
        }
        out
    }

    /// The payload ids of the list's nodes, in backward order: starting
    /// from `last` and repeatedly following `prev`.
    pub fn iter_backward(&self, list_h: &Handle) -> (r: Vec<usize>)
        requires
            self.wf(),
            self.lists().is_live(list_h@),
        ensures
            ({
                let c = self.lists().value(list_h@).spec_chain();
                &&& r@.len() == c.len()
                &&& forall|k: int|
                    0 <= k < c.len() ==> Some(#[trigger] r@[k] as int) == self.items().value(
                        c[c.len() - 1 - k],
                    ).payload_id()
            }),
    {
        let lid = list_h.id();
        let ghost c = self.lists().value(lid as int).spec_chain();
        proof {
            assert(list_wf(self.items(), self.lists(), lid as int));
        }
        let l = self.list_registry.item_at(lid);
        let mut cur: Option<usize> = match &l.last {
            Some(h) => Some(h.id()),
            None => None,
        };
        let mut out: Vec<usize> = Vec::new();
        let ghost mut k: int = 0;
        while cur.is_some()
            invariant
                self.wf(),
                self.lists().is_live(lid as int),
                c == self.lists().value(lid as int).spec_chain(),
                0 <= k <= c.len(),
                out@.len() == k,
                forall|m: int|
                    0 <= m < k ==> Some(#[trigger] out@[m] as int) == self.items().value(
                        c[c.len() - 1 - m],
                    ).payload_id(),
                cur is Some <==> k < c.len(),
                cur matches Some(id) ==> id as int == c[c.len() - 1 - k],
            decreases c.len() - k,
        {
            let id = match cur {
                Some(i) => i,
                None => vstd::pervasive::unreached(),
            };
            proof {
                assert(list_wf(self.items(), self.lists(), lid as int));
                assert(chain_node_ok(self.items(), lid as int, c, c.len() - 1 - k));
            }
            let node = self.item_registry.item_at(id);
            let pid = match &node.handle {
                Some(h) => h.id(),
                None => vstd::pervasive::unreached(),
            };
            out.push(pid);
            cur = match &node.prev {
                Some(h) => Some(h.id()),
                None => None,
            };
            proof {
                k = k + 1;
            }
        }
        out
    }
}

/// Following `next` from node `nid` for `steps` steps, as far as the links
/// reach.
pub open spec fn walk_forward(items: RegistryView<Item>, nid: int, steps: nat) -> Option<int>
    decreases steps,
{
    if steps == 0 {
        Some(nid)
    } else {
        match items.value(nid).next_id() {
            Some(nx) => walk_forward(items, nx, (steps - 1) as nat),
            None => None,
        }
    }
}

/// Walking forward along a well-formed chain moves exactly along chain
/// positions.
proof fn lemma_walk_chain(
    items: RegistryView<Item>,
    lists: RegistryView<List>,
    lid: int,
    k: int,
    steps: nat,
)
    requires
        list_wf(items, lists, lid),
        0 <= k,
        k + steps < lists.value(lid).spec_chain().len(),
    ensures
        walk_forward(items, lists.value(lid).spec_chain()[k], steps) == Some(
            lists.value(lid).spec_chain()[k + steps],
        ),
    decreases steps,
{
    let c = lists.value(lid).spec_chain();
    assert(chain_node_ok(items, lid, c, k));
    if steps > 0 {
        lemma_walk_chain(items, lists, lid, k + 1, (steps - 1) as nat);
    }
}

/// List linkage law: at quiescence, the first node of a non-empty list has
/// no predecessor, the last has no successor, and walking forward from
/// `first` exactly `count - 1` times reaches `last`.
pub proof fn lemma_list_linkage(items: RegistryView<Item>, lists: RegistryView<List>, lid: int)
    requires
        overlay_wf(items, lists),
        lists.is_live(lid),
        lists.value(lid).spec_count() > 0,
    ensures
        ({
            let c = lists.value(lid).spec_chain();
            &&& lists.value(lid).first_id() == Some(c[0])
            &&& lists.value(lid).last_id() == Some(c[c.len() - 1])
            &&& items.value(c[0]).prev_id() is None
            &&& items.value(c[c.len() - 1]).next_id() is None
            &&& walk_forward(items, c[0], (lists.value(lid).spec_count() - 1) as nat) == Some(
                c[c.len() - 1],
            )
        }),
{
    let c = lists.value(lid).spec_chain();
    assert(list_wf(items, lists, lid));
    assert(chain_node_ok(items, lid, c, 0));
    assert(chain_node_ok(items, lid, c, c.len() - 1));
    lemma_walk_chain(items, lists, lid, 0, (lists.value(lid).spec_count() - 1) as nat);
}

/// A list whose chain avoids the three touched nodes keeps its
/// well-formedness when everything else is framed.
proof fn lemma_list_wf_frame3(
    items: RegistryView<Item>,
    items2: RegistryView<Item>,
    lists: RegistryView<List>,
    lists2: RegistryView<List>,
    j: int,
    n1: int,
    n2: int,
    n3: int,
)
    requires
        list_wf(items, lists, j),
        lists2.is_live(j),
        lists2.value(j) == lists.value(j),
        lists2.rc(j) == lists.rc(j),
        unchanged_except3(items, items2, n1, n2, n3),
        !lists.value(j).spec_chain().contains(n1),
        !lists.value(j).spec_chain().contains(n2),
        !lists.value(j).spec_chain().contains(n3),
    ensures
        list_wf(items2, lists2, j),
{
    let c = lists.value(j).spec_chain();
    assert forall|k: int| 0 <= k < c.len() implies #[trigger] chain_node_ok(items2, j, c, k) by {
        assert(chain_node_ok(items, j, c, k));
        if c[k] == n1 {
            assert(c.contains(n1));
        }
        if c[k] == n2 {
            assert(c.contains(n2));
        }
        if c[k] == n3 {
            assert(c.contains(n3));
        }
        assert(items2.value(c[k]) == items.value(c[k]));
        assert(items2.rc(c[k]) == items.rc(c[k]));
    }
}

} // verus!

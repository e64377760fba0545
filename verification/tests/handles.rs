use rust_binder::binder::Binder;
use rust_binder::defs::BinderError;
use rust_binder::node::NodeRef;
use rust_binder::node_refs::{HandleEntry, NodeRefInfo, ProcessNodeRefs};

fn handles(t: &ProcessNodeRefs) -> Vec<(u32, usize)> {
    t.entries.iter().map(|e: &HandleEntry| (e.handle, e.info.node_ref.node)).collect()
}

#[test]
fn handle_table_gives_lowest_unused_handle_from_one() {
    let mut t = ProcessNodeRefs::new();
    assert_eq!(t.insert_or_update_handle(NodeRef::new(10, 1, 0), false, false).ok(), Some(1));
    assert_eq!(t.insert_or_update_handle(NodeRef::new(11, 1, 0), false, false).ok(), Some(2));
    assert_eq!(t.insert_or_update_handle(NodeRef::new(12, 1, 0), false, false).ok(), Some(3));
    t.remove_row(1);
    assert_eq!(handles(&t), vec![(1, 10), (3, 12)]);
    // The hole is filled first, and the table stays in order.
    assert_eq!(t.insert_or_update_handle(NodeRef::new(13, 1, 0), false, false).ok(), Some(2));
    assert_eq!(handles(&t), vec![(1, 10), (2, 13), (3, 12)]);
}

#[test]
fn handle_zero_is_for_the_manager_only() {
    let mut t = ProcessNodeRefs::new();
    assert_eq!(t.insert_or_update_handle(NodeRef::new(10, 1, 0), false, false).ok(), Some(1));
    assert_eq!(t.insert_or_update_handle(NodeRef::new(7, 1, 0), true, false).ok(), Some(0));
    assert_eq!(handles(&t), vec![(0, 7), (1, 10)]);
    // With handle 0 taken another manager gets the next free handle.
    assert_eq!(t.insert_or_update_handle(NodeRef::new(8, 1, 0), true, false).ok(), Some(2));
}

#[test]
fn importing_a_node_again_keeps_the_handle_and_absorbs() {
    let mut t = ProcessNodeRefs::new();
    t.insert_or_update_handle(NodeRef::new(10, 1, 0), false, false).unwrap();
    t.insert_or_update_handle(NodeRef::new(11, 1, 0), false, false).unwrap();
    assert_eq!(t.insert_or_update_handle(NodeRef::new(10, 2, 3), true, true).ok(), Some(1));
    assert_eq!(t.entries.len(), 2);
    let r = &t.entries[0].info.node_ref;
    assert_eq!(
        (r.strong_node_count, r.weak_node_count, r.strong_count, r.weak_count),
        (3, 3, 3, 3)
    );
}

#[test]
fn import_that_cannot_be_absorbed_is_no_mem() {
    let mut t = ProcessNodeRefs::new();
    t.insert_or_update_handle(NodeRef::new(10, 1, 0), false, false).unwrap();
    let r = t.insert_or_update_handle(NodeRef::new(10, usize::MAX, 0), false, false);
    let (e, back) = r.unwrap_err();
    assert_eq!(e, BinderError::NoMem);
    assert_eq!(back.strong_count, usize::MAX);
    assert_eq!(t.entries[0].info.node_ref.strong_count, 1);
}

#[test]
fn new_import_into_dead_process_is_srch() {
    let mut t = ProcessNodeRefs::new();
    let (e, back) = t.insert_or_update_handle(NodeRef::new(10, 1, 0), false, true).unwrap_err();
    assert_eq!(e, BinderError::Srch);
    assert_eq!(back.node, 10);
    assert!(t.entries.is_empty());
}

#[test]
fn handle_table_lookup_by_handle_and_node() {
    let mut t = ProcessNodeRefs::new();
    t.insert_or_update_handle(NodeRef::new(10, 1, 0), false, false).unwrap();
    t.insert_or_update_handle(NodeRef::new(20, 1, 0), false, false).unwrap();
    assert_eq!(t.find_handle(2), Some(1));
    assert_eq!(t.find_handle(3), None);
    assert_eq!(t.find_id(10), Some(0));
    assert_eq!(t.find_id(11), None);
    assert_eq!(t.lowest_unused(false), Some((3, 2)));
    assert_eq!(t.lowest_unused(true), Some((0, 0)));
}

#[test]
fn handle_table_scan_stops_at_the_largest_handle() {
    let mut t = ProcessNodeRefs::new();
    t.entries.push(HandleEntry { handle: u32::MAX, info: NodeRefInfo::new(NodeRef::new(1, 1, 0)) });
    assert_eq!(t.lowest_unused(false), Some((1, 0)));
    t.entries.insert(0, HandleEntry { handle: u32::MAX - 1, info: NodeRefInfo::new(NodeRef::new(2, 1, 0)) });
    assert_eq!(t.lowest_unused(false), Some((1, 0)));
}

#[test]
fn handle_table_rows_can_be_updated_and_taken() {
    let mut t = ProcessNodeRefs::new();
    t.insert_or_update_handle(NodeRef::new(10, 1, 0), false, false).unwrap();
    assert_eq!(t.replace_death(0, Some(4)), None);
    assert_eq!(t.replace_death(0, None), Some(4));
    let u = t.update_row(0, true, true);
    assert!(!u.remove);
    assert_eq!(t.entries[0].info.node_ref.strong_count, 2);
    let all = t.take_all();
    assert_eq!(all.len(), 1);
    assert!(t.entries.is_empty());
}

fn two_processes() -> (Binder, usize, usize, usize) {
    let mut b = Binder::new();
    let c = b.create_context(b"binder".to_vec());
    let owner = b.open(c, 1, 0);
    let other = b.open(c, 2, 0);
    let t = b.get_current_thread(owner, 1);
    (b, owner, other, t)
}

#[test]
fn get_node_makes_a_node_once() {
    let (mut b, owner, _other, t) = two_processes();
    let r1 = b.get_node(owner, 0x10, 0x20, 3, true, Some(t)).unwrap();
    let r2 = b.get_node(owner, 0x10, 0x20, 9, false, None).unwrap();
    assert_eq!(r1.node, r2.node);
    assert_eq!(b.procs[owner].inner.nodes, vec![r1.node]);
    let node = &b.nodes[r1.node];
    assert_eq!((node.global_id, node.ptr, node.cookie, node.flags, node.owner), (r1.node as u64, 0x10, 0x20, 3, owner));
    assert_eq!((node.inner.strong.count, node.inner.weak.count), (1, 1));
    assert_eq!((r1.strong_count, r1.weak_count), (1, 0));
    assert_eq!((r2.strong_count, r2.weak_count), (0, 1));
    // The same address with another cookie is refused.
    assert_eq!(b.get_node(owner, 0x10, 0x21, 0, true, None).unwrap_err(), BinderError::BadArg);
    assert_eq!(b.get_existing_node(owner, 0x10, 0x20), Ok(Some(r1.node)));
    assert_eq!(b.get_existing_node(owner, 0x11, 0x20), Ok(None));
}

#[test]
fn first_reference_of_each_kind_queues_the_node() {
    let (mut b, owner, _other, t) = two_processes();
    let r = b.get_node(owner, 0x10, 0x20, 0, true, Some(t)).unwrap();
    // With a thread given, the node waits on that thread.
    assert_eq!(b.threads[t].work_list.len(), 1);
    assert!(!b.threads[t].process_work_list);
    assert!(b.procs[owner].inner.work.is_empty());
    // Without one, it goes to the owner.
    let _w = b.new_node_ref(r.node, false, None);
    assert_eq!(b.procs[owner].inner.work.len(), 1);
    // A further reference of a kind that is held crosses nothing.
    let _s = b.new_node_ref(r.node, true, None);
    let _w2 = b.new_node_ref(r.node, false, None);
    assert_eq!(b.procs[owner].inner.work.len(), 1);
    assert_eq!(b.threads[t].work_list.len(), 1);
}

#[test]
fn dropping_a_reference_takes_its_contribution_back() {
    let (mut b, owner, other, _t) = two_processes();
    let r = b.get_node(owner, 0x10, 0x20, 0, true, None).unwrap();
    let n = r.node;
    let h = b.insert_or_update_handle(other, r, false).unwrap();
    assert_eq!(h, 1);
    let c = b.get_node_from_handle(other, h, false).unwrap();
    assert_eq!((b.nodes[n].inner.strong.count, b.nodes[n].inner.weak.count), (1, 1));
    b.drop_node_ref(c);
    assert_eq!((b.nodes[n].inner.strong.count, b.nodes[n].inner.weak.count), (1, 0));
    assert_eq!(b.get_node_from_handle(other, 9, true).unwrap_err(), BinderError::NoEnt);
}

#[test]
fn strong_clone_of_weak_handle_fails() {
    let (mut b, owner, other, _t) = two_processes();
    let r = b.get_node(owner, 0x10, 0x20, 0, false, None).unwrap();
    let h = b.insert_or_update_handle(other, r, false).unwrap();
    assert_eq!(b.get_node_from_handle(other, h, true).unwrap_err(), BinderError::Failed);
    assert!(b.get_node_from_handle(other, h, false).is_ok());
}

#[test]
fn update_ref_counts_and_removes_the_row_at_zero() {
    let (mut b, owner, other, _t) = two_processes();
    let r = b.get_node(owner, 0x10, 0x20, 0, true, None).unwrap();
    let n = r.node;
    let h = b.insert_or_update_handle(other, r, false).unwrap();
    assert_eq!(b.update_ref(other, h, true, false), Ok(()));
    assert_eq!((b.nodes[n].inner.strong.count, b.nodes[n].inner.weak.count), (1, 1));
    assert_eq!(b.update_ref(other, h, false, true), Ok(()));
    assert_eq!((b.nodes[n].inner.strong.count, b.nodes[n].inner.weak.count), (0, 1));
    assert_eq!(b.procs[other].node_refs.entries.len(), 1);
    assert_eq!(b.update_ref(other, h, false, false), Ok(()));
    assert_eq!((b.nodes[n].inner.strong.count, b.nodes[n].inner.weak.count), (0, 0));
    assert!(b.procs[other].node_refs.entries.is_empty());
    // An unknown handle is ignored.
    assert_eq!(b.update_ref(other, h, false, false), Ok(()));
    assert_eq!(b.update_ref(other, 0, true, true), Ok(()));
}

#[test]
fn import_into_dead_process_gives_the_reference_up() {
    let (mut b, owner, other, _t) = two_processes();
    let r = b.get_node(owner, 0x10, 0x20, 0, true, None).unwrap();
    let n = r.node;
    b.release(other);
    b.run_deferred(other);
    assert_eq!(b.insert_or_update_handle(other, r, false), Err(BinderError::Srch));
    assert_eq!(b.nodes[n].inner.strong.count, 0);
}

#[test]
fn update_node_takes_one_reference() {
    let (mut b, owner, _other, _t) = two_processes();
    let r = b.get_node(owner, 0x10, 0x20, 0, true, None).unwrap();
    b.update_node(owner, 0x10, 0x20, true);
    assert_eq!(b.nodes[r.node].inner.strong.count, 0);
    b.update_node(owner, 0x10, 0x21, true);
    b.update_node(owner, 0x99, 0, true);
    assert_eq!(b.nodes[r.node].inner.strong.count, 0);
}

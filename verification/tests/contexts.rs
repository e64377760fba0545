use rust_binder::binder::Binder;
use rust_binder::context::Context;
use rust_binder::defs::{BinderError, WorkItem};
use rust_binder::lists::{find, remove_value};
use rust_binder::node::NodeRef;
use rust_binder::thread::Thread;

#[test]
fn registry_lists_contexts_in_order_of_creation() {
    let mut b = Binder::new();
    assert_eq!(b.get_all_contexts(), Vec::<usize>::new());
    let a = b.create_context(b"binder".to_vec());
    let h = b.create_context(b"hwbinder".to_vec());
    let v = b.create_context(b"vndbinder".to_vec());
    assert_eq!(b.get_all_contexts(), vec![a, h, v]);
    assert_eq!(b.find_context(&b"hwbinder".to_vec()), Some(h));
    assert_eq!(b.find_context(&b"hwbinde".to_vec()), None);
    assert_eq!(b.contexts[h].name, b"hwbinder".to_vec());
    assert!(b.contexts[h].manager.node.is_none());
    assert!(b.contexts[h].manager.uid.is_none());
}

#[test]
fn deregister_is_idempotent() {
    let mut b = Binder::new();
    let a = b.create_context(b"binder".to_vec());
    let h = b.create_context(b"hwbinder".to_vec());
    b.deregister_context(a);
    assert_eq!(b.get_all_contexts(), vec![h]);
    b.deregister_context(a);
    assert_eq!(b.get_all_contexts(), vec![h]);
    b.deregister_context(99);
    assert_eq!(b.get_all_contexts(), vec![h]);
    // The name is free again, and the old context still serves its processes.
    assert_eq!(b.find_context(&b"binder".to_vec()), None);
    let p = b.open(a, 1, 0);
    assert_eq!(b.get_all_procs(a), vec![p]);
    let a2 = b.create_context(b"binder".to_vec());
    assert_ne!(a, a2);
    assert_eq!(b.get_all_contexts(), vec![h, a2]);
}

#[test]
fn contexts_are_independent() {
    let mut b = Binder::new();
    let a = b.create_context(b"binder".to_vec());
    let h = b.create_context(b"hwbinder".to_vec());
    let pa = b.open(a, 1, 10);
    let ph = b.open(h, 2, 20);
    assert_eq!(b.set_as_manager(pa, None, 10, None), Ok(()));
    assert_eq!(b.set_as_manager(ph, None, 20, None), Ok(()));
    assert_eq!(b.get_all_procs(a), vec![pa]);
    assert_eq!(b.get_all_procs(h), vec![ph]);
    assert_ne!(
        b.contexts[a].manager.node.as_ref().unwrap().node,
        b.contexts[h].manager.node.as_ref().unwrap().node
    );
}

#[test]
fn manager_slot_records_node_and_uid() {
    let mut c = Context::new(b"binder".to_vec());
    assert!(c.set_manager_node(NodeRef::new(3, 1, 0), 1000, None).is_ok());
    assert_eq!(c.manager.node.as_ref().unwrap().node, 3);
    assert_eq!(c.manager.uid, Some(1000));
    let (e, back) = c.set_manager_node(NodeRef::new(4, 1, 0), 1000, None).unwrap_err();
    assert_eq!(e, BinderError::Busy);
    assert_eq!(back.node, 4);
    let (e, _) = c.set_manager_node(NodeRef::new(4, 1, 0), 1001, Some(BinderError::Perm)).unwrap_err();
    assert_eq!(e, BinderError::Busy);
    assert_eq!(c.manager.node.as_ref().unwrap().node, 3);
}

#[test]
fn unset_manager_is_idempotent_and_keeps_uid() {
    let mut c = Context::new(b"binder".to_vec());
    c.set_manager_node(NodeRef::new(3, 1, 0), 1000, None).unwrap();
    assert_eq!(c.unset_manager_node().map(|r| r.node), Some(3));
    assert_eq!(c.unset_manager_node().map(|r| r.node), None);
    assert_eq!(c.manager.uid, Some(1000));
    let (e, _) = c.set_manager_node(NodeRef::new(4, 1, 0), 1001, None).unwrap_err();
    assert_eq!(e, BinderError::Perm);
    let (e, _) = c.set_manager_node(NodeRef::new(4, 1, 0), 1000, Some(BinderError::NoMem)).unwrap_err();
    assert_eq!(e, BinderError::NoMem);
    assert!(c.set_manager_node(NodeRef::new(4, 1, 0), 1000, None).is_ok());
}

#[test]
fn get_manager_node_without_manager_is_dead() {
    let mut b = Binder::new();
    let c = b.create_context(b"binder".to_vec());
    assert_eq!(b.get_manager_node(c, true).unwrap_err(), BinderError::Dead);
    let p = b.open(c, 1, 0);
    b.set_as_manager(p, None, 0, None).unwrap();
    let r = b.get_manager_node(c, true).unwrap();
    assert_eq!((r.strong_count, r.weak_count), (1, 0));
    let w = b.get_manager_node(c, false).unwrap();
    assert_eq!((w.strong_count, w.weak_count), (0, 1));
    b.unset_manager_node(c);
    b.unset_manager_node(c);
    assert_eq!(b.get_manager_node(c, false).unwrap_err(), BinderError::Dead);
}

#[test]
fn context_members_register_and_deregister() {
    let mut c = Context::new(b"binder".to_vec());
    c.register_process(4);
    c.register_process(7);
    c.deregister_process(4);
    c.deregister_process(4);
    assert_eq!(c.manager.all_procs, vec![7]);
}

#[test]
fn list_helpers_remove_first_occurrence() {
    let mut v = vec![3usize, 5, 3, 7];
    assert_eq!(find(&v, 3), Some(0));
    assert_eq!(find(&v, 7), Some(3));
    assert_eq!(find(&v, 9), None);
    assert!(remove_value(&mut v, 3));
    assert_eq!(v, vec![5, 3, 7]);
    assert!(!remove_value(&mut v, 9));
    assert_eq!(v, vec![5, 3, 7]);
}

#[test]
fn thread_queue_is_first_in_first_out() {
    let mut t = Thread::new(5, 0);
    assert!(t.looper_need_return);
    assert!(t.push_work(WorkItem::Return(1)));
    t.push_work_deferred(WorkItem::Return(2));
    assert!(t.push_work(WorkItem::Return(3)));
    assert_eq!(t.pop_work(), Some(WorkItem::Return(1)));
    assert_eq!(t.pop_work(), Some(WorkItem::Return(2)));
    assert_eq!(t.pop_work(), Some(WorkItem::Return(3)));
    assert!(!t.process_work_list);
    assert_eq!(t.pop_work(), None);
}

#[test]
fn deferred_work_waits_for_other_work() {
    let mut t = Thread::new(5, 0);
    t.push_work_deferred(WorkItem::Return(2));
    assert_eq!(t.pop_work(), None);
    assert_eq!(t.work_list.len(), 1);
    assert!(t.push_work(WorkItem::Return(3)));
    assert_eq!(t.pop_work(), Some(WorkItem::Return(2)));
}

#[test]
fn dead_thread_takes_no_work() {
    let mut t = Thread::new(5, 0);
    t.is_dead = true;
    assert!(!t.push_work(WorkItem::Return(1)));
    assert!(t.work_list.is_empty());
}

#[test]
fn looper_state_machine() {
    let mut t = Thread::new(5, 0);
    assert!(!t.is_looper());
    assert!(!t.should_use_process_work_queue());
    t.looper_enter();
    assert!(t.is_looper() && t.looper.entered && !t.looper.invalid);
    assert!(t.should_use_process_work_queue());
    t.set_current_transaction(Some(0));
    assert!(!t.should_use_process_work_queue());
    t.set_current_transaction(None);
    t.looper_register(true);
    assert!(t.looper.registered && t.looper.invalid);
    t.looper_exit();
    assert!(t.looper.exited);

    let mut u = Thread::new(6, 0);
    u.looper_register(true);
    assert!(u.is_looper() && !u.looper.invalid);
    u.looper_enter();
    assert!(u.looper.invalid);
    let mut v = Thread::new(7, 0);
    v.looper_register(false);
    assert!(v.looper.invalid);
}

#[test]
fn return_work_slot_holds_one_command() {
    let mut t = Thread::new(5, 0);
    assert_eq!(t.take_return_work(), None);
    t.push_return_work(1);
    t.push_return_work(2);
    assert_eq!(t.take_return_work(), Some(2));
    assert_eq!(t.take_return_work(), None);
}

#[test]
fn work_for_a_process_goes_to_the_longest_waiting_thread() {
    let mut b = Binder::new();
    let c = b.create_context(b"binder".to_vec());
    let p = b.open(c, 1, 0);
    let t1 = b.get_current_thread(p, 1);
    let t2 = b.get_current_thread(p, 2);
    assert_eq!(b.get_current_thread(p, 1), t1);
    assert_eq!(b.get_work_or_register(p, t1), None);
    assert_eq!(b.get_work_or_register(p, t2), None);
    b.push_work(p, WorkItem::Return(1)).unwrap();
    b.push_work(p, WorkItem::Return(2)).unwrap();
    b.push_work(p, WorkItem::Return(3)).unwrap();
    assert_eq!(b.threads[t1].work_list, vec![WorkItem::Return(1)]);
    assert_eq!(b.threads[t2].work_list, vec![WorkItem::Return(2)]);
    assert_eq!(b.procs[p].inner.work, vec![WorkItem::Return(3)]);
    assert_eq!(b.get_work_or_register(p, t1), Some(WorkItem::Return(3)));
    assert_eq!(b.get_work(p), None);
}

#[test]
fn work_falls_back_to_the_process_queue_when_the_thread_is_dead() {
    let mut b = Binder::new();
    let c = b.create_context(b"binder".to_vec());
    let p = b.open(c, 1, 0);
    let t1 = b.get_current_thread(p, 1);
    let t2 = b.get_current_thread(p, 2);
    b.get_work_or_register(p, t1);
    b.get_work_or_register(p, t2);
    b.threads[t1].is_dead = true;
    b.push_work(p, WorkItem::Return(1)).unwrap();
    assert!(b.threads[t1].work_list.is_empty());
    assert_eq!(b.procs[p].inner.work, vec![WorkItem::Return(1)]);
    assert_eq!(b.procs[p].inner.ready_threads, vec![t2, t1]);
    b.unregister(p, t1);
    b.unregister(p, t1);
    assert_eq!(b.procs[p].inner.ready_threads, vec![t2]);
}

#[test]
fn work_for_a_thread_outside_the_pool_goes_to_its_process() {
    let mut b = Binder::new();
    let c = b.create_context(b"binder".to_vec());
    let p = b.open(c, 1, 0);
    let t = b.get_current_thread(p, 1);
    assert_eq!(b.thread_push_work_if_looper(t, WorkItem::Return(1)), Ok(()));
    assert_eq!(b.procs[p].inner.work, vec![WorkItem::Return(1)]);
    b.looper_enter(t);
    assert_eq!(b.thread_push_work_if_looper(t, WorkItem::Return(2)), Ok(()));
    assert_eq!(b.threads[t].work_list, vec![WorkItem::Return(2)]);
}

#[test]
fn process_of_another_context_is_not_a_member() {
    let mut b = Binder::new();
    let c0 = b.create_context(b"binder".to_vec());
    let c1 = b.create_context(b"hwbinder".to_vec());
    let p0 = b.open(c0, 1, 0);
    let p1 = b.open(c1, 2, 0);
    assert_eq!(b.contexts[c0].manager.all_procs, vec![p0]);
    assert_eq!(b.contexts[c1].manager.all_procs, vec![p1]);
    // Neither call touches the members of a context the process is not of.
    assert!(!b.register_process(c0, p1));
    assert!(!b.deregister_process(c1, p0));
    assert_eq!(b.contexts[c0].manager.all_procs, vec![p0]);
    assert_eq!(b.contexts[c1].manager.all_procs, vec![p1]);
    assert!(b.deregister_process(c0, p0));
    assert!(b.contexts[c0].manager.all_procs.is_empty());
    assert!(b.register_process(c0, p0));
    assert_eq!(b.contexts[c0].manager.all_procs, vec![p0]);
}

#[test]
fn manager_node_is_queued_for_its_owner() {
    let mut b = Binder::new();
    let ctx = b.create_context(b"binder".to_vec());
    let p = b.open(ctx, 1, 0);
    assert!(b.procs[p].inner.work.is_empty());
    b.set_as_manager(p, None, 0, None).unwrap();
    let n = b.contexts[ctx].manager.node.as_ref().unwrap().node;
    assert_eq!(b.nodes[n].owner, p);
    assert_eq!(b.nodes[n].inner.strong.count, 1);
    assert!(!b.nodes[n].inner.strong.has_count);
    assert_eq!(b.procs[p].inner.work.iter().copied().collect::<Vec<_>>(), vec![WorkItem::Node(n)]);
}

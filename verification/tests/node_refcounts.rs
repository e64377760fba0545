use rust_binder::node::{
    CountState, DeathDelivery, Node, NodeDeathInner, NodeDelivery, NodeRef, NodeUpdate,
};

fn count(count: usize, has_count: bool) -> CountState {
    CountState { count, has_count }
}

#[test]
fn count_state_increment_notifies_only_from_zero() {
    let mut c = CountState::new();
    assert!(c.update(true, 1));
    assert_eq!(c, count(1, false));
    // From 1 to 2 nothing is crossed, whatever the owner knows.
    assert!(!c.update(true, 1));
    assert_eq!(c, count(2, false));
    c.has_count = true;
    assert!(!c.update(true, 3));
    assert_eq!(c, count(5, true));
    // From zero, but the owner still believes there is a count.
    let mut known = count(0, true);
    assert!(!known.update(true, 1));
    assert_eq!(known, count(1, true));
    // Adding nothing crosses nothing.
    let mut zero = CountState::new();
    assert!(!zero.update(true, 0));
    assert!(!zero.update(false, 0));
    assert_eq!(zero, count(0, false));
}

#[test]
fn count_state_decrement_to_zero_notifies() {
    let mut c = count(2, true);
    assert!(!c.update(false, 1));
    assert!(c.update(false, 1));
    assert_eq!(c, count(0, true));
}

#[test]
fn count_state_underflow_leaves_count_untouched() {
    let mut c = count(1, true);
    assert!(!c.update(false, 2));
    assert_eq!(c, count(1, true));
}

#[test]
fn count_state_overflow_leaves_count_untouched() {
    let mut c = count(usize::MAX, false);
    assert!(!c.update(true, 1));
    assert_eq!(c, count(usize::MAX, false));
}

#[test]
fn node_delivery_reports_weak_before_strong() {
    let mut node = Node::new(0, 0xAA, 0xBB, 0, 0);
    assert!(node.update_refcount_locked(true, true, 1));
    let d = node.deliver_locked();
    assert_eq!(
        d,
        NodeDelivery { increfs: true, acquire: true, release: false, decrefs: false, remove: false }
    );
    assert_eq!(node.inner.active_inc_refs, 2);
    assert!(node.inner.strong.has_count);
    assert!(node.inner.weak.has_count);
}

#[test]
fn node_drop_waits_for_acknowledgement() {
    let mut node = Node::new(0, 0xAA, 0xBB, 0, 0);
    node.update_refcount_locked(true, true, 1);
    node.deliver_locked();
    // The drop to zero asks for a delivery.
    assert!(node.update_refcount_locked(false, true, 1));
    // Both acquisitions are unacknowledged: nothing may be dropped yet.
    let d = node.deliver_locked();
    assert_eq!(
        d,
        NodeDelivery { increfs: false, acquire: false, release: false, decrefs: false, remove: false }
    );
    assert!(!node.inc_ref_done_locked(false));
    assert_eq!(node.inner.active_inc_refs, 1);
    // The last acknowledgement finds a drop that was held back.
    assert!(node.inc_ref_done_locked(true));
    assert_eq!(node.inner.active_inc_refs, 0);
    let d = node.deliver_locked();
    assert_eq!(
        d,
        NodeDelivery { increfs: false, acquire: false, release: true, decrefs: true, remove: true }
    );
    assert!(!node.inner.strong.has_count);
    assert!(!node.inner.weak.has_count);
}

#[test]
fn inc_ref_done_without_acquisition_changes_nothing() {
    let mut node = Node::new(0, 1, 2, 0, 0);
    assert!(!node.inc_ref_done_locked(true));
    assert_eq!(node.inner.active_inc_refs, 0);
}

#[test]
fn oneway_queue_keeps_order() {
    let mut node = Node::new(0, 1, 2, 0, 0);
    assert!(node.submit_oneway_locked(10));
    assert!(!node.submit_oneway_locked(11));
    assert!(!node.submit_oneway_locked(12));
    assert!(node.inner.has_pending_oneway_todo);
    assert_eq!(node.pop_oneway_locked(), Some(11));
    assert!(node.inner.has_pending_oneway_todo);
    assert_eq!(node.pop_oneway_locked(), Some(12));
    assert_eq!(node.pop_oneway_locked(), None);
    assert!(!node.inner.has_pending_oneway_todo);
}

#[test]
fn oneway_queue_take_empties_it() {
    let mut node = Node::new(0, 1, 2, 0, 0);
    node.submit_oneway_locked(1);
    node.submit_oneway_locked(2);
    node.submit_oneway_locked(3);
    assert_eq!(node.take_oneway_locked(), vec![2, 3]);
    assert!(!node.inner.has_pending_oneway_todo);
    assert!(node.inner.oneway_todo.is_empty());
}

#[test]
fn death_list_is_first_in_first_out() {
    let mut node = Node::new(0, 1, 2, 0, 0);
    node.add_death(5);
    node.add_death(6);
    node.add_death(7);
    node.remove_death(6);
    assert_eq!(node.next_death(), Some(5));
    assert_eq!(node.next_death(), Some(7));
    assert_eq!(node.next_death(), None);
}

#[test]
fn node_ref_absorb_sums_and_empties() {
    let mut a = NodeRef::new(3, 1, 0);
    let b = NodeRef::new(3, 2, 5);
    assert!(a.check_absorb(&b));
    let rest = a.absorb(b);
    assert_eq!(
        (a.node, a.strong_node_count, a.weak_node_count, a.strong_count, a.weak_count),
        (3, 3, 5, 3, 5)
    );
    assert_eq!(
        (rest.strong_node_count, rest.weak_node_count, rest.strong_count, rest.weak_count),
        (0, 0, 0, 0)
    );
    assert_eq!(rest.release(), (None, None));
}

#[test]
fn node_ref_absorb_refuses_other_node_and_overflow() {
    let a = NodeRef::new(3, 1, 0);
    assert!(!a.check_absorb(&NodeRef::new(4, 1, 0)));
    assert!(!a.check_absorb(&NodeRef::new(3, usize::MAX, 0)));
}

#[test]
fn node_ref_release_gives_back_each_contribution_once() {
    let r = NodeRef::new(9, 2, 1);
    assert_eq!(
        r.release(),
        (
            Some(NodeUpdate { inc: false, strong: true, count: 2 }),
            Some(NodeUpdate { inc: false, strong: false, count: 1 })
        )
    );
}

#[test]
fn node_ref_strong_clone_needs_strong_count() {
    assert!(!NodeRef::new(1, 0, 1).check_clone(true));
    assert!(NodeRef::new(1, 0, 1).check_clone(false));
    assert!(NodeRef::new(1, 1, 0).check_clone(true));
}

#[test]
fn node_ref_update_first_weak_reference_contributes_once() {
    let mut r = NodeRef::new(1, 1, 0);
    let u = r.update(true, false);
    assert!(!u.remove);
    assert_eq!(u.node_update, Some(NodeUpdate { inc: true, strong: false, count: 1 }));
    assert_eq!((r.weak_count, r.weak_node_count), (1, 1));
    let u = r.update(true, false);
    assert_eq!(u.node_update, None);
    assert_eq!((r.weak_count, r.weak_node_count), (2, 1));
}

#[test]
fn node_ref_update_last_reference_asks_for_removal() {
    let mut r = NodeRef::new(1, 1, 0);
    let u = r.update(false, true);
    assert!(u.remove);
    assert_eq!(u.node_update, Some(NodeUpdate { inc: false, strong: true, count: 1 }));
    assert_eq!((r.strong_count, r.strong_node_count), (0, 0));
}

#[test]
fn node_ref_update_keeps_reference_while_other_kind_is_held() {
    let mut r = NodeRef::new(1, 1, 1);
    let u = r.update(false, true);
    assert!(!u.remove);
    assert_eq!(u.node_update, Some(NodeUpdate { inc: false, strong: true, count: 1 }));
}

#[test]
fn node_ref_update_first_strong_reference_contributes_once() {
    let mut r = NodeRef::new(1, 0, 1);
    let u = r.update(true, true);
    assert!(!u.remove);
    assert_eq!(u.node_update, Some(NodeUpdate { inc: true, strong: true, count: 1 }));
    assert_eq!((r.strong_count, r.strong_node_count), (1, 1));
    assert_eq!((r.weak_count, r.weak_node_count), (1, 1));
    let u = r.update(true, true);
    assert_eq!(u.node_update, None);
    assert_eq!((r.strong_count, r.strong_node_count), (2, 1));
}

#[test]
fn node_ref_update_strong_decrement_at_zero_is_ignored() {
    let mut r = NodeRef::new(1, 0, 1);
    let u = r.update(false, true);
    assert!(!u.remove);
    assert_eq!(u.node_update, None);
    assert_eq!((r.strong_count, r.strong_node_count, r.weak_count), (0, 0, 1));
}

#[test]
fn node_ref_update_weak_decrement_at_zero_is_ignored() {
    let mut r = NodeRef::new(1, 1, 0);
    let u = r.update(false, false);
    assert!(!u.remove);
    assert_eq!(u.node_update, None);
    assert_eq!(r.weak_count, 0);
}

#[test]
fn death_set_cleared_before_death_needs_removal_and_queueing() {
    let mut d = NodeDeathInner::new();
    let o = d.set_cleared(false);
    assert!(o.needs_removal);
    assert!(o.needs_queueing);
    assert!(d.cleared);
    assert!(!d.aborted);
    assert_eq!(d.delivery(), DeathDelivery::ClearDone);
}

#[test]
fn death_set_cleared_after_death_waits_for_acknowledgement() {
    let mut d = NodeDeathInner::new();
    assert!(d.set_dead());
    assert_eq!(d.delivery(), DeathDelivery::DeadBinder);
    let o = d.set_cleared(false);
    assert!(!o.needs_removal);
    assert!(!o.needs_queueing);
    assert_eq!(d.delivery(), DeathDelivery::DeadBinder);
    assert!(d.set_notification_done());
    assert_eq!(d.delivery(), DeathDelivery::ClearDone);
}

#[test]
fn death_set_dead_on_cleared_subscription_does_nothing() {
    let mut d = NodeDeathInner::new();
    d.set_cleared(false);
    assert!(!d.set_dead());
    assert!(!d.dead);
}

#[test]
fn death_aborted_delivers_nothing() {
    let mut d = NodeDeathInner::new();
    d.set_dead();
    d.set_cleared(true);
    assert!(d.aborted && d.cleared);
    assert_eq!(d.delivery(), DeathDelivery::Nothing);
}

#[test]
fn death_set_cleared_again_on_aborted_dead_subscription_is_a_no_op() {
    let mut d = NodeDeathInner::new();
    d.set_dead();
    d.set_cleared(true);
    let before = d;
    let o = d.set_cleared(true);
    assert_eq!(d, before);
    assert!(!o.needs_queueing);
    assert!(!o.needs_removal);
}

#[test]
fn death_notification_done_before_clear_needs_no_queueing() {
    let mut d = NodeDeathInner::new();
    d.set_dead();
    assert!(!d.set_notification_done());
    let o = d.set_cleared(false);
    assert!(o.needs_queueing);
}

//! Nodes, references to nodes, and death subscriptions: the per-object state
//! machines of the distributed reference-counting protocol.

use vstd::prelude::*;
use std::collections::VecDeque;
use crate::defs::{ids_below, DeathId, Lens, NodeId, ProcId, TxnId};
use crate::lists::{remove_value, without};

verus! {

/// One of a node's two reference counts, with the flag that records whether
/// the owner has been told that the count is non-zero.
#[derive(Clone, Copy, Debug, PartialEq, Eq, Structural)]
pub struct CountState {
    pub count: usize,
    pub has_count: bool,
}

impl CountState {
    pub fn new() -> (r: Self)
        ensures
            r.count == 0,
            !r.has_count,
    {
        CountState { count: 0, has_count: false }
    }

    /// Whether adding (`inc`) or subtracting `count` can be applied: the sum
    /// must fit, and a subtraction must not go below zero.
    pub open spec fn can_update(self, inc: bool, count: usize) -> bool {
        if inc {
            self.count + count <= usize::MAX
        } else {
            self.count >= count
        }
    }

    /// The state after `update`: the count moves where it can, the flag never does.
    pub open spec fn update_spec(self, inc: bool, count: usize) -> CountState {
        if !self.can_update(inc, count) {
            self
        } else if inc {
            CountState { count: (self.count + count) as usize, has_count: self.has_count }
        } else {
            CountState { count: (self.count - count) as usize, has_count: self.has_count }
        }
    }

    /// Whether `update` asks for the owner to be notified: only when the
    /// count crosses between zero and non-zero and the owner's knowledge is
    /// out of date. That is an increment from zero while the owner has not
    /// been told of a count, or a decrement to zero while the owner still
    /// believes there is one.
    pub open spec fn update_notifies(self, inc: bool, count: usize) -> bool {
        if !self.can_update(inc, count) || count == 0 {
            false
        } else if inc {
            self.count == 0 && !self.has_count
        } else {
            self.count == count && self.has_count
        }
    }

    /// Adds or subtracts `count`. An update that would overflow or underflow
    /// is not applied and asks for no notification.
    pub fn update(&mut self, inc: bool, count: usize) -> (notify: bool)
        ensures
            *final(self) == old(self).update_spec(inc, count),
            notify == old(self).update_notifies(inc, count),
    {
        if inc {
            if count > usize::MAX - self.count {
                return false;
            }
            let from_zero: bool = self.count == 0;
            self.count = self.count + count;
            from_zero && count > 0 && !self.has_count
        } else {
            if self.count < count {
                return false;
            }
            self.count = self.count - count;
            count > 0 && self.count == 0 && self.has_count
        }
    }
}

/// The reference-counting part of a node's state.
#[derive(Clone, Copy, Debug, PartialEq, Eq, Structural)]
pub struct RefState {
    pub strong: CountState,
    pub weak: CountState,
    /// Acquisitions reported to the owner and not yet acknowledged.
    pub active_inc_refs: u8,
}

/// What one delivery of a node to its owner writes and decides.
#[derive(Clone, Copy, Debug, PartialEq, Eq, Structural)]
pub struct NodeDelivery {
    pub increfs: bool,
    pub acquire: bool,
    pub release: bool,
    pub decrefs: bool,
    /// The node has no references left and leaves the owner's node table.
    pub remove: bool,
}

impl RefState {
    /// Every unacknowledged acquisition belongs to a count that the owner
    /// has been told about, so there are at most two.
    pub open spec fn wf(self) -> bool {
        self.active_inc_refs as int <= (if self.strong.has_count { 1int } else { 0int }) + (
        if self.weak.has_count { 1int } else { 0int })
    }

    /// A strong reference exists.
    pub open spec fn strong_held(self) -> bool {
        self.strong.count > 0
    }

    /// A weak reference exists; a strong one counts as a weak one too.
    pub open spec fn weak_held(self) -> bool {
        self.strong.count > 0 || self.weak.count > 0
    }

    /// The commands of one delivery.
    pub open spec fn delivery(self) -> NodeDelivery {
        let increfs = self.weak_held() && !self.weak.has_count;
        let acquire = self.strong_held() && !self.strong.has_count;
        let quiet = self.active_inc_refs == 0 && !increfs && !acquire;
        NodeDelivery {
            increfs,
            acquire,
            release: quiet && self.strong.has_count && !self.strong_held(),
            decrefs: quiet && self.weak.has_count && !self.weak_held(),
            remove: quiet && !self.weak_held(),
        }
    }

    /// The state after one delivery.
    pub open spec fn delivered(self) -> RefState {
        let d = self.delivery();
        RefState {
            strong: CountState {
                count: self.strong.count,
                has_count: (self.strong.has_count || d.acquire) && !d.release,
            },
            weak: CountState {
                count: self.weak.count,
                has_count: (self.weak.has_count || d.increfs) && !d.decrefs,
            },
            active_inc_refs: (self.active_inc_refs + (if d.increfs { 1int } else { 0int }) + (
            if d.acquire { 1int } else { 0int })) as u8,
        }
    }

    /// Whether a delivery now would tell the owner to drop a count.
    pub open spec fn wants_drop(self) -> bool {
        (!self.weak_held() && self.weak.has_count) || (!self.strong_held()
            && self.strong.has_count)
    }

    /// The state after the owner acknowledged one acquisition.
    pub open spec fn inc_ref_done_spec(self) -> RefState {
        if self.active_inc_refs == 0 {
            self
        } else {
            RefState { active_inc_refs: (self.active_inc_refs - 1) as u8, ..self }
        }
    }

    /// Whether the acknowledgement was the last one outstanding and a drop is due.
    pub open spec fn inc_ref_done_reschedules(self) -> bool {
        self.active_inc_refs == 1 && self.wants_drop()
    }

    /// The state after `update_refcount_locked`.
    pub open spec fn update_spec(self, inc: bool, strong: bool, count: usize) -> RefState {
        if strong {
            RefState { strong: self.strong.update_spec(inc, count), ..self }
        } else {
            RefState { weak: self.weak.update_spec(inc, count), ..self }
        }
    }

    /// Whether `update_refcount_locked` asks for the node to be queued.
    pub open spec fn update_notifies(self, inc: bool, strong: bool, count: usize) -> bool {
        if strong {
            self.strong.update_notifies(inc, count)
        } else {
            self.weak.update_notifies(inc, count)
        }
    }

    /// A delivery keeps the state well-formed, never reports a drop while an
    /// acquisition is unacknowledged or in the same delivery as an
    /// acquisition, and leaves no acquisition pending when it drops.
    pub proof fn lemma_delivery_respects_active(self)
        requires
            self.wf(),
        ensures
            self.delivered().wf(),
            self.delivered().active_inc_refs <= 2,
            self.delivery().release || self.delivery().decrefs ==> self.active_inc_refs == 0
                && self.delivered().active_inc_refs == 0 && !self.delivery().increfs
                && !self.delivery().acquire,
            self.delivery().remove ==> !self.delivered().strong.has_count
                && !self.delivered().weak.has_count,
    {
    }

    /// The flag of each count follows the commands: it is set exactly when
    /// the acquisition for it has been written and the matching drop has not.
    /// An acquisition is written only while the flag is clear, a drop only
    /// while it is set.
    pub proof fn lemma_has_count_follows_commands(self)
        ensures
            self.delivered().strong.has_count == ((self.strong.has_count
                || self.delivery().acquire) && !self.delivery().release),
            self.delivered().weak.has_count == ((self.weak.has_count || self.delivery().increfs)
                && !self.delivery().decrefs),
            self.delivery().acquire ==> !self.strong.has_count,
            self.delivery().increfs ==> !self.weak.has_count,
            self.delivery().release ==> self.strong.has_count,
            self.delivery().decrefs ==> self.weak.has_count,
            self.delivered().strong.count == self.strong.count,
            self.delivered().weak.count == self.weak.count,
            forall|inc: bool, strong: bool, count: usize|
                #![auto]
                self.update_spec(inc, strong, count).strong.has_count == self.strong.has_count
                    && self.update_spec(inc, strong, count).weak.has_count
                    == self.weak.has_count,
            self.inc_ref_done_spec().strong.has_count == self.strong.has_count,
            self.inc_ref_done_spec().weak.has_count == self.weak.has_count,
    {
    }

    /// Updates and acknowledgements keep the state well-formed.
    pub proof fn lemma_wf_preserved(self, inc: bool, strong: bool, count: usize)
        requires
            self.wf(),
        ensures
            self.update_spec(inc, strong, count).wf(),
            self.inc_ref_done_spec().wf(),
    {
    }
}

/// The mutable part of a node.
pub struct NodeInner {
    pub strong: CountState,
    pub weak: CountState,
    /// Death subscriptions on this node, oldest first.
    pub death_list: Vec<DeathId>,
    /// One-way transactions that wait for the one in flight, oldest first.
    pub oneway_todo: VecDeque<TxnId>,
    /// A one-way transaction to this node is in flight: it has been handed to
    /// the owner and its buffer has not been freed yet.
    pub has_pending_oneway_todo: bool,
    /// Acquisitions reported to the owner and not yet acknowledged.
    pub active_inc_refs: u8,
}

/// An object that a process exports and that other processes refer to.
pub struct Node {
    /// Unique over the whole engine, assigned in increasing order: the
    /// node's place in the engine's node arena.
    pub global_id: u64,
    /// The address by which the owner's userspace knows the object.
    pub ptr: usize,
    pub cookie: usize,
    pub flags: u32,
    pub owner: ProcId,
    pub inner: NodeInner,
}

/// A node as a mathematical value.
pub struct NodeView {
    pub global_id: u64,
    pub ptr: usize,
    pub cookie: usize,
    pub flags: u32,
    pub owner: ProcId,
    pub refs: RefState,
    pub death_list: Seq<DeathId>,
    pub oneway_todo: Seq<TxnId>,
    pub has_pending_oneway_todo: bool,
}

impl View for Node {
    type V = NodeView;

    open spec fn view(&self) -> NodeView {
        NodeView {
            global_id: self.global_id,
            ptr: self.ptr,
            cookie: self.cookie,
            flags: self.flags,
            owner: self.owner,
            refs: RefState {
                strong: self.inner.strong,
                weak: self.inner.weak,
                active_inc_refs: self.inner.active_inc_refs,
            },
            death_list: self.inner.death_list@,
            oneway_todo: self.inner.oneway_todo@,
            has_pending_oneway_todo: self.inner.has_pending_oneway_todo,
        }
    }
}

impl NodeView {
    /// The reference counts are well-formed, and one-way transactions wait
    /// only behind one that is in flight.
    pub open spec fn wf(self) -> bool {
        &&& self.refs.wf()
        &&& self.oneway_todo.len() > 0 ==> self.has_pending_oneway_todo
    }

    /// The node is well-formed and every object it names exists.
    pub open spec fn valid(self, l: Lens) -> bool {
        &&& self.wf()
        &&& self.owner < l.procs
        &&& ids_below(self.death_list, l.deaths)
        &&& ids_below(self.oneway_todo, l.txns)
    }

    /// A node without references, subscribers or queued transactions.
    pub open spec fn fresh(global_id: u64, ptr: usize, cookie: usize, flags: u32, owner: ProcId) -> NodeView {
        NodeView {
            global_id,
            ptr,
            cookie,
            flags,
            owner,
            refs: RefState {
                strong: CountState { count: 0, has_count: false },
                weak: CountState { count: 0, has_count: false },
                active_inc_refs: 0,
            },
            death_list: Seq::empty(),
            oneway_todo: Seq::empty(),
            has_pending_oneway_todo: false,
        }
    }

    /// The node with other reference counts.
    pub open spec fn with_refs(self, refs: RefState) -> NodeView {
        NodeView { refs, ..self }
    }

    /// The node after a one-way transaction arrived: it waits if one is in
    /// flight, else it is in flight itself.
    pub open spec fn submit_oneway(self, transaction: TxnId) -> NodeView {
        if self.has_pending_oneway_todo {
            NodeView { oneway_todo: self.oneway_todo.push(transaction), ..self }
        } else {
            NodeView { has_pending_oneway_todo: true, ..self }
        }
    }

    /// The node after the one-way transaction in flight finished: the next
    /// one, if any, is in flight.
    pub open spec fn pop_oneway(self) -> NodeView {
        if self.oneway_todo.len() > 0 {
            NodeView { oneway_todo: self.oneway_todo.drop_first(), has_pending_oneway_todo: true, ..self }
        } else {
            NodeView { has_pending_oneway_todo: false, ..self }
        }
    }

    /// The node with its one-way queue emptied and none in flight.
    pub open spec fn take_oneway(self) -> NodeView {
        NodeView { oneway_todo: Seq::empty(), has_pending_oneway_todo: false, ..self }
    }

    /// A one-way queue is non-empty only while a one-way transaction is in
    /// flight, whatever happens to the queue.
    pub proof fn lemma_oneway_queue(self, transaction: TxnId)
        requires
            self.wf(),
        ensures
            self.submit_oneway(transaction).wf(),
            self.pop_oneway().wf(),
            self.take_oneway().wf(),
            !self.has_pending_oneway_todo ==> self.oneway_todo.len() == 0,
            self.submit_oneway(transaction).has_pending_oneway_todo,
            !self.pop_oneway().has_pending_oneway_todo ==> self.pop_oneway().oneway_todo.len()
                == 0,
    {
    }
}

impl Node {
    pub fn new(global_id: u64, ptr: usize, cookie: usize, flags: u32, owner: ProcId) -> (r: Self)
        ensures
            r@ == NodeView::fresh(global_id, ptr, cookie, flags, owner),
            r@.wf(),
    {
        Node {
            global_id,
            ptr,
            cookie,
            flags,
            owner,
            inner: NodeInner {
                strong: CountState::new(),
                weak: CountState::new(),
                death_list: Vec::new(),
                oneway_todo: VecDeque::new(),
                has_pending_oneway_todo: false,
                active_inc_refs: 0,
            },
        }
    }

    /// The pair by which the owner's userspace identifies the node.
    pub fn get_id(&self) -> (r: (usize, usize))
        ensures
            r == (self.ptr, self.cookie),
    {
        (self.ptr, self.cookie)
    }

    /// Adds or subtracts `count` on the strong or the weak count and says
    /// whether the node must be queued for delivery to its owner. An update
    /// that would overflow or underflow changes nothing and returns `false`.
    pub fn update_refcount_locked(&mut self, inc: bool, strong: bool, count: usize) -> (push: bool)
        ensures
            final(self)@ == old(self)@.with_refs(old(self)@.refs.update_spec(inc, strong, count)),
            push == old(self)@.refs.update_notifies(inc, strong, count),
    {
        if strong {
            self.inner.strong.update(inc, count)
        } else {
            self.inner.weak.update(inc, count)
        }
    }

    /// The owner acknowledged one acquisition. Returns whether the node must
    /// be queued again because a drop was held back by the acquisition. With
    /// no acquisition outstanding nothing changes.
    pub fn inc_ref_done_locked(&mut self, _strong: bool) -> (reschedule: bool)
        ensures
            final(self)@ == old(self)@.with_refs(old(self)@.refs.inc_ref_done_spec()),
            reschedule == old(self)@.refs.inc_ref_done_reschedules(),
    {
        if self.inner.active_inc_refs == 0 {
            return false;
        }
        self.inner.active_inc_refs = self.inner.active_inc_refs - 1;
        if self.inner.active_inc_refs == 0 {
            let strong: bool = self.inner.strong.count > 0;
            let has_strong: bool = self.inner.strong.has_count;
            let weak: bool = strong || self.inner.weak.count > 0;
            let has_weak: bool = self.inner.weak.has_count;
            let should_drop_weak: bool = !weak && has_weak;
            let should_drop_strong: bool = !strong && has_strong;
            should_drop_weak || should_drop_strong
        } else {
            false
        }
    }

    /// The state change of one delivery to the owner: decides which of
    /// `INCREFS`, `ACQUIRE`, `RELEASE` and `DECREFS` are due and whether the
    /// node leaves the owner's table.
    pub fn deliver_locked(&mut self) -> (d: NodeDelivery)
        requires
            old(self)@.refs.wf(),
        ensures
            d == old(self)@.refs.delivery(),
            final(self)@ == old(self)@.with_refs(old(self)@.refs.delivered()),
    {
        let strong: bool = self.inner.strong.count > 0;
        let has_strong: bool = self.inner.strong.has_count;
        let weak: bool = strong || self.inner.weak.count > 0;
        let has_weak: bool = self.inner.weak.has_count;
        if weak && !has_weak {
            self.inner.weak.has_count = true;
            self.inner.active_inc_refs = self.inner.active_inc_refs + 1;
        }
        if strong && !has_strong {
            self.inner.strong.has_count = true;
            self.inner.active_inc_refs = self.inner.active_inc_refs + 1;
        }
        let no_active_inc_refs: bool = self.inner.active_inc_refs == 0;
        let should_drop_weak: bool = no_active_inc_refs && (!weak && has_weak);
        let should_drop_strong: bool = no_active_inc_refs && (!strong && has_strong);
        if should_drop_weak {
            self.inner.weak.has_count = false;
        }
        if should_drop_strong {
            self.inner.strong.has_count = false;
        }
        NodeDelivery {
            increfs: weak && !has_weak,
            acquire: strong && !has_strong,
            release: should_drop_strong,
            decrefs: should_drop_weak,
            remove: no_active_inc_refs && !weak,
        }
    }

    /// Appends a death subscription.
    pub fn add_death(&mut self, death: DeathId)
        ensures
            final(self)@ == (NodeView { death_list: old(self)@.death_list.push(death), ..old(self)@ }),
    {
        self.inner.death_list.push(death);
    }

    /// Takes the oldest death subscription.
    pub fn next_death(&mut self) -> (r: Option<DeathId>)
        ensures
            old(self)@.death_list.len() == 0 ==> r.is_none() && final(self)@ == old(self)@,
            old(self)@.death_list.len() > 0 ==> r == Some(old(self)@.death_list[0]) && final(self)@
                == (NodeView { death_list: old(self)@.death_list.drop_first(), ..old(self)@ }),
    {
        if self.inner.death_list.len() == 0 {
            None
        } else {
            Some(self.inner.death_list.remove(0))
        }
    }

    /// Takes a death subscription off the list; one that is not on it is ignored.
    pub fn remove_death(&mut self, death: DeathId)
        ensures
            final(self)@ == (NodeView {
                death_list: without(old(self)@.death_list, death),
                ..old(self)@
            }),
    {
        remove_value(&mut self.inner.death_list, death);
    }

    /// A one-way transaction arrives. Returns `true` when none is in flight:
    /// the caller then hands it to the owner and it counts as in flight.
    /// Otherwise it waits in the node's queue.
    pub fn submit_oneway_locked(&mut self, transaction: TxnId) -> (deliver_now: bool)
        ensures
            final(self)@ == old(self)@.submit_oneway(transaction),
            deliver_now == !old(self)@.has_pending_oneway_todo,
    {
        if self.inner.has_pending_oneway_todo {
            self.inner.oneway_todo.push_back(transaction);
            false
        } else {
            self.inner.has_pending_oneway_todo = true;
            true
        }
    }

    /// The one-way transaction in flight is finished. Returns the next one, which
    /// is then in flight; with none waiting the node has none in flight.
    pub fn pop_oneway_locked(&mut self) -> (next: Option<TxnId>)
        ensures
            final(self)@ == old(self)@.pop_oneway(),
            next == (if old(self)@.oneway_todo.len() > 0 {
                Some(old(self)@.oneway_todo[0])
            } else {
                None
            }),
    {
        match self.inner.oneway_todo.pop_front() {
            Some(t) => {
                self.inner.has_pending_oneway_todo = true;
                Some(t)
            },
            None => {
                self.inner.has_pending_oneway_todo = false;
                None
            },
        }
    }

    /// Empties the one-way queue and returns what waited in it, oldest
    /// first. Afterwards no one-way transaction counts as in flight.
    pub fn take_oneway_locked(&mut self) -> (waiting: Vec<TxnId>)
        ensures
            final(self)@ == old(self)@.take_oneway(),
            waiting@ == old(self)@.oneway_todo,
    {
        let mut waiting: Vec<TxnId> = Vec::new();
        while self.inner.oneway_todo.len() > 0
            invariant
                waiting@ + self.inner.oneway_todo@ == old(self)@.oneway_todo,
                self@ == (NodeView { oneway_todo: self.inner.oneway_todo@, ..old(self)@ }),
            decreases self.inner.oneway_todo@.len(),
        {
            let ghost before = self.inner.oneway_todo@;
            let ghost got = waiting@;
            match self.inner.oneway_todo.pop_front() {
                Some(t) => {
                    waiting.push(t);
                    proof {
                        assert(waiting@ + self.inner.oneway_todo@ =~= got + before);
                    }
                },
                None => {},
            }
        }
        self.inner.has_pending_oneway_todo = false;
        proof {
            assert(waiting@ =~= waiting@ + self.inner.oneway_todo@);
            assert(self.inner.oneway_todo@ =~= Seq::<TxnId>::empty());
        }
        waiting
    }
}

/// A change that a reference asks its node to apply.
#[derive(Clone, Copy, Debug, PartialEq, Eq, Structural)]
pub struct NodeUpdate {
    pub inc: bool,
    pub strong: bool,
    pub count: usize,
}

/// What `NodeRef::update` decided.
#[derive(Clone, Copy, Debug, PartialEq, Eq, Structural)]
pub struct RefUpdate {
    /// Both user-visible counts are zero: the reference leaves its table.
    pub remove: bool,
    /// The change to apply to the node, if any.
    pub node_update: Option<NodeUpdate>,
}

/// A reference that one process holds on a node of another.
#[derive(Debug)]
pub struct NodeRef {
    pub node: NodeId,
    /// What this reference contributes to the node's strong count.
    pub strong_node_count: usize,
    /// What this reference contributes to the node's weak count.
    pub weak_node_count: usize,
    /// Strong references that userspace holds through this reference.
    pub strong_count: usize,
    /// Weak references that userspace holds through this reference.
    pub weak_count: usize,
}

impl NodeRef {
    /// A reference whose contribution to the node equals what userspace holds.
    pub fn new(node: NodeId, strong_count: usize, weak_count: usize) -> (r: Self)
        ensures
            r == (NodeRef {
                node,
                strong_node_count: strong_count,
                weak_node_count: weak_count,
                strong_count,
                weak_count,
            }),
    {
        NodeRef {
            node,
            strong_node_count: strong_count,
            weak_node_count: weak_count,
            strong_count,
            weak_count,
        }
    }

    /// The two references name one node and their counters can be summed.
    pub open spec fn can_absorb(&self, other: &NodeRef) -> bool {
        &&& self.node == other.node
        &&& self.strong_node_count + other.strong_node_count <= usize::MAX
        &&& self.weak_node_count + other.weak_node_count <= usize::MAX
        &&& self.strong_count + other.strong_count <= usize::MAX
        &&& self.weak_count + other.weak_count <= usize::MAX
    }

    /// The reference that holds what `self` and `other` held together.
    pub open spec fn absorbed(&self, other: &NodeRef) -> NodeRef {
        NodeRef {
            node: self.node,
            strong_node_count: (self.strong_node_count + other.strong_node_count) as usize,
            weak_node_count: (self.weak_node_count + other.weak_node_count) as usize,
            strong_count: (self.strong_count + other.strong_count) as usize,
            weak_count: (self.weak_count + other.weak_count) as usize,
        }
    }

    /// What is left of a reference after another one absorbed it.
    pub open spec fn emptied(&self) -> NodeRef {
        NodeRef {
            node: self.node,
            strong_node_count: 0,
            weak_node_count: 0,
            strong_count: 0,
            weak_count: 0,
        }
    }

    /// Tests whether `absorb` may be called.
    pub fn check_absorb(&self, other: &NodeRef) -> (r: bool)
        ensures
            r == self.can_absorb(other),
    {
        self.node == other.node && other.strong_node_count <= usize::MAX - self.strong_node_count
            && other.weak_node_count <= usize::MAX - self.weak_node_count && other.strong_count
            <= usize::MAX - self.strong_count && other.weak_count <= usize::MAX - self.weak_count
    }

    /// Adds the counters of `other` to `self` and returns `other` emptied, so
    /// that dropping it changes nothing on the node.
    pub fn absorb(&mut self, other: NodeRef) -> (rest: NodeRef)
        requires
            old(self).can_absorb(&other),
        ensures
            *final(self) == old(self).absorbed(&other),
            rest == other.emptied(),
    {
        let mut other = other;
        self.strong_node_count = self.strong_node_count + other.strong_node_count;
        self.weak_node_count = self.weak_node_count + other.weak_node_count;
        self.strong_count = self.strong_count + other.strong_count;
        self.weak_count = self.weak_count + other.weak_count;
        other.strong_count = 0;
        other.weak_count = 0;
        other.strong_node_count = 0;
        other.weak_node_count = 0;
        other
    }

    /// A strong clone needs a strong reference to clone from.
    pub open spec fn can_clone(&self, strong: bool) -> bool {
        !(strong && self.strong_count == 0)
    }

    /// Tests whether this reference may be cloned.
    pub fn check_clone(&self, strong: bool) -> (r: bool)
        ensures
            r == self.can_clone(strong),
    {
        !(strong && self.strong_count == 0)
    }

    /// Whether `update` changes anything: an increment must fit, and a
    /// decrement needs something to take from.
    pub open spec fn update_applies(&self, inc: bool, strong: bool) -> bool {
        let count = if strong { self.strong_count } else { self.weak_count };
        &&& inc ==> count < usize::MAX
        &&& !inc ==> count > 0
    }

    /// A count of userspace after `update`.
    pub open spec fn count_updated(count: usize, inc: bool) -> usize {
        if inc {
            (count + 1) as usize
        } else {
            (count - 1) as usize
        }
    }

    /// A contribution to the node after `update` of the count of
    /// userspace that goes with it: one with the first reference, nothing
    /// once the last is gone.
    pub open spec fn node_count_updated(count: usize, node_count: usize, inc: bool) -> usize {
        if inc && count == 0 {
            1
        } else if !inc && count == 1 {
            0
        } else {
            node_count
        }
    }

    /// The reference after `update`: the pair of counters chosen by
    /// `strong` changes, the other pair stays.
    pub open spec fn updated(&self, inc: bool, strong: bool) -> NodeRef {
        if !self.update_applies(inc, strong) {
            *self
        } else if strong {
            NodeRef {
                strong_count: Self::count_updated(self.strong_count, inc),
                strong_node_count: Self::node_count_updated(
                    self.strong_count,
                    self.strong_node_count,
                    inc,
                ),
                ..*self
            }
        } else {
            NodeRef {
                weak_count: Self::count_updated(self.weak_count, inc),
                weak_node_count: Self::node_count_updated(
                    self.weak_count,
                    self.weak_node_count,
                    inc,
                ),
                ..*self
            }
        }
    }

    /// What `update` asks of the caller: on the first reference of a kind one
    /// contribution is added to the node, on the last one the whole
    /// contribution is taken back; the reference is to be removed when the
    /// last reference of one kind went and none of the other kind is left.
    pub open spec fn update_outcome(&self, inc: bool, strong: bool) -> RefUpdate {
        let count = if strong { self.strong_count } else { self.weak_count };
        let node_count = if strong { self.strong_node_count } else { self.weak_node_count };
        let other_count = if strong { self.weak_count } else { self.strong_count };
        if !self.update_applies(inc, strong) {
            RefUpdate { remove: false, node_update: None }
        } else if inc {
            RefUpdate {
                remove: false,
                node_update: if count == 0 {
                    Some(NodeUpdate { inc: true, strong, count: 1 })
                } else {
                    None
                },
            }
        } else if count == 1 {
            RefUpdate {
                remove: other_count == 0,
                node_update: Some(NodeUpdate { inc: false, strong, count: node_count }),
            }
        } else {
            RefUpdate { remove: false, node_update: None }
        }
    }

    /// Adds one to, or takes one from, the strong or weak count that
    /// userspace holds. An increment that does not fit and a decrement at
    /// zero change nothing.
    pub fn update(&mut self, inc: bool, strong: bool) -> (r: RefUpdate)
        ensures
            *final(self) == old(self).updated(inc, strong),
            r == old(self).update_outcome(inc, strong),
    {
        let count: usize = if strong { self.strong_count } else { self.weak_count };
        let node_count: usize = if strong { self.strong_node_count } else { self.weak_node_count };
        let other_count: usize = if strong { self.weak_count } else { self.strong_count };
        let mut new_node_count: usize = node_count;
        let mut r = RefUpdate { remove: false, node_update: None };
        let new_count: usize;
        if inc {
            if count == usize::MAX {
                return r;
            }
            if count == 0 {
                new_node_count = 1;
                r.node_update = Some(NodeUpdate { inc: true, strong, count: 1 });
            }
            new_count = count + 1;
        } else {
            if count == 0 {
                return r;
            }
            new_count = count - 1;
            if new_count == 0 {
                r.node_update = Some(NodeUpdate { inc: false, strong, count: node_count });
                new_node_count = 0;
                r.remove = other_count == 0;
            }
        }
        if strong {
            self.strong_count = new_count;
            self.strong_node_count = new_node_count;
        } else {
            self.weak_count = new_count;
            self.weak_node_count = new_node_count;
        }
        r
    }

    /// What dropping this reference takes from the node's strong count.
    pub open spec fn strong_release(&self) -> Option<NodeUpdate> {
        if self.strong_node_count > 0 {
            Some(NodeUpdate { inc: false, strong: true, count: self.strong_node_count })
        } else {
            None
        }
    }

    /// What dropping this reference takes from the node's weak count.
    pub open spec fn weak_release(&self) -> Option<NodeUpdate> {
        if self.weak_node_count > 0 {
            Some(NodeUpdate { inc: false, strong: false, count: self.weak_node_count })
        } else {
            None
        }
    }

    /// Gives the reference up: returns what must be taken from the node's
    /// strong and weak counts, each exactly once.
    pub fn release(self) -> (r: (Option<NodeUpdate>, Option<NodeUpdate>))
        ensures
            r.0 == self.strong_release(),
            r.1 == self.weak_release(),
    {
        let s: Option<NodeUpdate> = if self.strong_node_count > 0 {
            Some(NodeUpdate { inc: false, strong: true, count: self.strong_node_count })
        } else {
            None
        };
        let w: Option<NodeUpdate> = if self.weak_node_count > 0 {
            Some(NodeUpdate { inc: false, strong: false, count: self.weak_node_count })
        } else {
            None
        };
        (s, w)
    }

    /// Absorbing `b` into `a` and then dropping what is left of `b` is the
    /// same as never having had `b` and holding `a` with the summed counters:
    /// the rest of `b` releases nothing, and `a` releases the sum.
    pub proof fn lemma_absorb_then_drop(a: NodeRef, b: NodeRef)
        requires
            a.can_absorb(&b),
        ensures
            b.emptied().strong_release().is_none(),
            b.emptied().weak_release().is_none(),
            a.absorbed(&b) == (NodeRef {
                node: a.node,
                strong_node_count: (a.strong_node_count + b.strong_node_count) as usize,
                weak_node_count: (a.weak_node_count + b.weak_node_count) as usize,
                strong_count: (a.strong_count + b.strong_count) as usize,
                weak_count: (a.weak_count + b.weak_count) as usize,
            }),
            a.absorbed(&b).strong_node_count == a.strong_node_count + b.strong_node_count,
            a.absorbed(&b).weak_node_count == a.weak_node_count + b.weak_node_count,
    {
    }
}

/// The flags of a death subscription.
#[derive(Clone, Copy, Debug, PartialEq, Eq, Structural)]
pub struct NodeDeathInner {
    /// The node's owner died and the subscriber is to be told.
    pub dead: bool,
    /// The subscriber asked for the subscription to end.
    pub cleared: bool,
    /// The subscriber acknowledged the death.
    pub notification_done: bool,
    /// The handle went away under the subscription: nothing is delivered any more.
    pub aborted: bool,
}

/// What `set_cleared` asks of the caller.
#[derive(Clone, Copy, Debug, PartialEq, Eq, Structural)]
pub struct ClearOutcome {
    /// The subscription is to be taken off its node's list.
    pub needs_removal: bool,
    /// The subscription is to be queued for delivery.
    pub needs_queueing: bool,
}

/// What the delivery of a death subscription writes.
#[derive(Clone, Copy, Debug, PartialEq, Eq, Structural)]
pub enum DeathDelivery {
    /// Nothing: the subscription was aborted.
    Nothing,
    /// `BR_CLEAR_DEATH_NOTIFICATION_DONE`.
    ClearDone,
    /// `BR_DEAD_BINDER`; the subscription goes on the delivered list.
    DeadBinder,
}

impl NodeDeathInner {
    /// An aborted subscription is a cleared one.
    pub open spec fn wf(self) -> bool {
        self.aborted ==> self.cleared
    }

    pub fn new() -> (r: Self)
        ensures
            r.wf(),
            r == (NodeDeathInner {
                dead: false,
                cleared: false,
                notification_done: false,
                aborted: false,
            }),
    {
        NodeDeathInner { dead: false, cleared: false, notification_done: false, aborted: false }
    }

    /// The flags after `set_cleared`.
    pub open spec fn cleared_spec(self, abort: bool) -> NodeDeathInner {
        NodeDeathInner { cleared: true, aborted: self.aborted || abort, ..self }
    }

    /// What `set_cleared` returns.
    pub open spec fn clear_outcome(self) -> ClearOutcome {
        ClearOutcome {
            needs_removal: !self.dead,
            needs_queueing: !self.dead || self.notification_done,
        }
    }

    /// Ends the subscription; with `abort` it is also silenced.
    pub fn set_cleared(&mut self, abort: bool) -> (r: ClearOutcome)
        ensures
            *final(self) == old(self).cleared_spec(abort),
            r == old(self).clear_outcome(),
            final(self).wf(),
    {
        self.cleared = true;
        if abort {
            self.aborted = true;
        }
        ClearOutcome {
            needs_removal: !self.dead,
            needs_queueing: !self.dead || self.notification_done,
        }
    }

    /// Records the subscriber's acknowledgement. Returns whether the
    /// subscription is to be queued: that is, whether it was cleared before.
    pub fn set_notification_done(&mut self) -> (needs_queueing: bool)
        ensures
            *final(self) == (NodeDeathInner { notification_done: true, ..*old(self) }),
            needs_queueing == old(self).cleared,
            old(self).wf() ==> final(self).wf(),
    {
        self.notification_done = true;
        self.cleared
    }

    /// The flags after `set_dead`.
    pub open spec fn dead_spec(self) -> NodeDeathInner {
        if self.cleared {
            self
        } else {
            NodeDeathInner { dead: true, ..self }
        }
    }

    /// The node's owner died. Returns whether the subscription is to be
    /// queued on the subscriber; a cleared subscription stays as it is.
    pub fn set_dead(&mut self) -> (needs_queueing: bool)
        ensures
            *final(self) == old(self).dead_spec(),
            needs_queueing == !old(self).cleared,
            old(self).wf() ==> final(self).wf(),
    {
        if self.cleared {
            false
        } else {
            self.dead = true;
            true
        }
    }

    /// What a delivery in this state writes.
    pub open spec fn delivery_spec(self) -> DeathDelivery {
        if self.aborted {
            DeathDelivery::Nothing
        } else if self.cleared && (!self.dead || self.notification_done) {
            DeathDelivery::ClearDone
        } else {
            DeathDelivery::DeadBinder
        }
    }

    /// Decides what a delivery in this state writes.
    pub fn delivery(&self) -> (r: DeathDelivery)
        ensures
            r == self.delivery_spec(),
    {
        if self.aborted {
            DeathDelivery::Nothing
        } else if self.cleared && (!self.dead || self.notification_done) {
            DeathDelivery::ClearDone
        } else {
            DeathDelivery::DeadBinder
        }
    }

    /// Every operation keeps an aborted subscription cleared.
    pub proof fn lemma_aborted_implies_cleared(self, abort: bool)
        requires
            self.wf(),
        ensures
            self.cleared_spec(abort).wf(),
            self.dead_spec().wf(),
            (NodeDeathInner { notification_done: true, ..self }).wf(),
    {
    }

    /// Aborting a subscription that is already aborted, whose node is dead
    /// and whose death is not yet acknowledged, changes nothing and asks for
    /// no queueing.
    pub proof fn lemma_set_cleared_again(self)
        requires
            self.cleared,
            self.aborted,
            self.dead,
            !self.notification_done,
        ensures
            self.cleared_spec(true) == self,
            !self.clear_outcome().needs_queueing,
            !self.clear_outcome().needs_removal,
    {
    }

    /// A delivery that finds the subscription cleared, dead and not yet
    /// acknowledged writes `BR_DEAD_BINDER` (and so puts it on the delivered
    /// list) unless it was aborted.
    pub proof fn lemma_unacknowledged_death_is_delivered(self)
        requires
            self.cleared,
            self.dead,
            !self.notification_done,
            !self.aborted,
        ensures
            self.delivery_spec() == DeathDelivery::DeadBinder,
    {
    }
}

/// A subscription of a process to the death of a node's owner.
#[derive(Clone, Copy, Debug, PartialEq, Eq, Structural)]
pub struct NodeDeath {
    pub node: NodeId,
    /// The subscriber.
    pub process: ProcId,
    pub cookie: usize,
    pub inner: NodeDeathInner,
}

impl NodeDeath {
    /// The flags are well-formed and the node and the subscriber exist.
    pub open spec fn valid(&self, l: Lens) -> bool {
        &&& self.inner.wf()
        &&& self.node < l.nodes
        &&& self.process < l.procs
    }

    pub fn new(node: NodeId, process: ProcId, cookie: usize) -> (r: Self)
        ensures
            r == (NodeDeath {
                node,
                process,
                cookie,
                inner: NodeDeathInner {
                    dead: false,
                    cleared: false,
                    notification_done: false,
                    aborted: false,
                },
            }),
    {
        NodeDeath { node, process, cookie, inner: NodeDeathInner::new() }
    }
}

} // verus!

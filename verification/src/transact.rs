//! How transactions travel: submission to a thread or a process, replies
//! and their way back along the transaction stack, cancellation, the
//! per-node ordering of one-way transactions, and the release of buffers.

use vstd::prelude::*;
use crate::binder::{Binder, BinderView};
use crate::defs::{
    BinderError, NodeId, ProcId, ThreadId, TxnId, WorkItem, BR_DEAD_REPLY,
};

use crate::process::{Allocation, AllocationInfo};
use crate::thread::ThreadView;
use crate::transaction::TransactionView;

verus! {

/// How far down the transaction stack a frame is: one more than its index,
/// zero for no frame. Frames below a frame are older, so the depth falls
/// along a stack.
pub open spec fn depth(frame: Option<TxnId>) -> int {
    match frame {
        Some(f) => f as int + 1,
        None => 0,
    }
}

impl BinderView {
    /// The sender of the first frame, from `frame` down, that was sent by
    /// a thread of process `proc`.
    pub open spec fn stack_find_process(self, frame: Option<TxnId>, proc: ProcId) -> Option<ThreadId>
        decreases depth(frame),
    {
        match frame {
            None => None,
            Some(f) => {
                let tx = self.txns[f as int];
                if self.threads[tx.from as int].process == proc {
                    Some(tx.from)
                } else if depth(tx.stack_next) >= depth(frame) {
                    None
                } else {
                    self.stack_find_process(tx.stack_next, proc)
                }
            },
        }
    }

    /// The first frame, from `frame` down, that was sent by `thread`.
    pub open spec fn stack_find_from(self, frame: Option<TxnId>, thread: ThreadId) -> Option<TxnId>
        decreases depth(frame),
    {
        match frame {
            None => None,
            Some(f) => {
                let tx = self.txns[f as int];
                if tx.from == thread {
                    Some(f)
                } else if depth(tx.stack_next) >= depth(frame) {
                    None
                } else {
                    self.stack_find_from(tx.stack_next, thread)
                }
            },
        }
    }

    /// The thread that a transaction is donated to: the sender of the
    /// nearest frame below it that came from the recipient process. That
    /// thread waits for the chain that this transaction belongs to.
    pub open spec fn find_target_thread(self, t: int) -> Option<ThreadId> {
        self.stack_find_process(self.txns[t].stack_next, self.txns[t].to)
    }

    /// The nearest frame below transaction `t` that was sent by `thread`.
    pub open spec fn find_from(self, t: int, thread: ThreadId) -> Option<TxnId> {
        self.stack_find_from(self.txns[t].stack_next, thread)
    }

    /// Whether `deliver_single_reply` asks the caller to go on unwinding:
    /// the reply was for the thread's current frame and the thread is dead.
    pub open spec fn deliver_single_reply_unwinds(self, th: int, t: TxnId) -> bool {
        self.threads[th].current_transaction == Some(t) && self.threads[th].is_dead
    }

    /// The engine after a reply to transaction `t` reached thread `th`.
    /// Unless `t` is the thread's current frame nothing happens. Otherwise
    /// the frame is popped, and a live thread gets the reply as work; a
    /// reply that finds the thread dead is dropped and its buffer released.
    pub open spec fn deliver_single_reply(self, th: int, reply: WorkItem, t: TxnId) -> BinderView {
        let thread = self.threads[th];
        if thread.current_transaction != Some(t) {
            self
        } else {
            let s1 = self.with_thread(
                th,
                ThreadView { current_transaction: self.txns[t as int].stack_next, ..thread },
            );
            if thread.is_dead {
                match reply {
                    WorkItem::Transaction(r) => s1.txn_discard(r as int),
                    _ => s1,
                }
            } else {
                s1.thread_push_work(th, reply)
            }
        }
    }

    /// What `pop_transaction_to_reply` answers: the thread's current
    /// frame; `BadArg` when it has none or sent the frame itself.
    pub open spec fn pop_transaction_to_reply_result(self, th: int) -> Result<TxnId, BinderError> {
        match self.threads[th].current_transaction {
            None => Err(BinderError::BadArg),
            Some(t) => if self.txns[t as int].from == th {
                Err(BinderError::BadArg)
            } else {
                Ok(t)
            },
        }
    }

    /// The engine after `pop_transaction_to_reply`: the thread's current
    /// frame is the nearest frame below the popped one that the thread
    /// sent itself, if there is one.
    pub open spec fn pop_transaction_to_reply(self, th: int) -> BinderView {
        match self.pop_transaction_to_reply_result(th) {
            Ok(t) => self.with_thread(
                th,
                ThreadView {
                    current_transaction: self.find_from(t as int, th as usize),
                    ..self.threads[th]
                },
            ),
            Err(_) => self,
        }
    }

    /// A frame found below a frame is older than it, and a frame found for
    /// a thread was sent by that thread.
    pub proof fn lemma_stack_find_from(self, frame: Option<TxnId>, thread: ThreadId)
        requires
            self.wf(),
            frame.is_some() ==> frame.unwrap() < self.txns.len(),
        ensures
            depth(self.stack_find_from(frame, thread)) <= depth(frame),
            self.stack_find_from(frame, thread).is_some() ==> self.stack_find_from(
                frame,
                thread,
            ).unwrap() < self.txns.len() && self.txns[self.stack_find_from(
                frame,
                thread,
            ).unwrap() as int].from == thread,
        decreases depth(frame),
    {
        match frame {
            None => {},
            Some(f) => {
                let tx = self.txns[f as int];
                assert(tx.valid(self.lens(), f as int));
                if tx.from != thread && depth(tx.stack_next) < depth(frame) {
                    self.lemma_stack_find_from(tx.stack_next, thread);
                }
            },
        }
    }

    /// A reply to the current frame of a live thread pops that frame, so
    /// that the thread's stack is what it was when the frame was sent, and
    /// the thread finds exactly the reply added to its queue.
    pub proof fn lemma_reply_restores_stack(self, th: int, reply: WorkItem, t: TxnId)
        requires
            self.wf(),
            0 <= th < self.threads.len(),
            self.threads[th].current_transaction == Some(t),
            !self.threads[th].is_dead,
        ensures
            self.deliver_reply(th, reply, t).threads[th].current_transaction
                == self.txns[t as int].stack_next,
            self.deliver_reply(th, reply, t).threads[th].work_list
                == self.threads[th].work_list.push(reply),
            depth(self.deliver_reply(th, reply, t).threads[th].current_transaction) < depth(
                self.threads[th].current_transaction,
            ),
    {
        assert(self.threads[th].valid(self.lens()));
        assert(self.txns[t as int].valid(self.lens(), t as int));
    }

    /// The engine after the transaction stack of thread `th` was unwound:
    /// every frame that the thread serves is answered with `BR_DEAD_REPLY`,
    /// and where the sender of a frame is dead too, its stack is unwound in turn.
    pub open spec fn unwind_transaction_stack(self, th: int) -> BinderView
        decreases depth(self.threads[th].current_transaction),
    {
        match self.pop_transaction_to_reply_result(th) {
            Err(_) => self,
            Ok(t) => {
                let s1 = self.pop_transaction_to_reply(th);
                let from = self.txns[t as int].from as int;
                let s2 = s1.deliver_single_reply(from, WorkItem::Return(BR_DEAD_REPLY), t);
                if s1.deliver_single_reply_unwinds(from, t) && depth(
                    s2.threads[from].current_transaction,
                ) < depth(self.threads[th].current_transaction) {
                    s2.unwind_transaction_stack(from)
                } else {
                    s2
                }
            },
        }
    }

    /// The engine after a reply to transaction `t` was delivered to thread
    /// `th`; if the thread is dead, the stack of the transaction's sender
    /// is unwound.
    pub open spec fn deliver_reply(self, th: int, reply: WorkItem, t: TxnId) -> BinderView {
        let s1 = self.deliver_single_reply(th, reply, t);
        if self.deliver_single_reply_unwinds(th, t) {
            s1.unwind_transaction_stack(self.txns[t as int].from as int)
        } else {
            s1
        }
    }

    /// The engine after transaction `t` was cancelled: the sender of a
    /// call that expects a reply gets `BR_DEAD_REPLY`; a one-way
    /// transaction or a reply is dropped in silence.
    pub open spec fn txn_cancel(self, t: int) -> BinderView {
        if self.txns[t].is_sync_call() {
            self.deliver_reply(self.txns[t].from as int, WorkItem::Return(BR_DEAD_REPLY), t as usize)
        } else {
            self
        }
    }

    /// The engine after a buffer taken from the arena of process `p` was
    /// released: the reference to the target node is given up, so are the
    /// references behind the objects embedded in the payload, the payload
    /// is zeroed if the sender asked for that, and the buffer is free.
    pub open spec fn release_buffer(self, p: int, alloc: Allocation) -> BinderView {
        match alloc.info {
            Some(info) => {
                let s1 = self.drop_node_ref_opt(info.target_node);
                let s2 = match info.offsets {
                    Some((start, end)) => s1.cleanup_objects(p, alloc.offset, start, start, end),
                    None => s1,
                };
                let s3 = if info.clear_on_free {
                    s2.buffer_clear(p, alloc.offset, alloc.size)
                } else {
                    s2
                };
                s3.buffer_raw_free(p, alloc.ptr)
            },
            None => self.buffer_raw_free(p, alloc.ptr),
        }
    }

    /// The engine after the buffer of an undelivered transaction was
    /// released without looking at the one-way queue of its node.
    pub open spec fn txn_discard(self, t: int) -> BinderView {
        let tx = self.txns[t];
        if tx.free_allocation {
            let s1 = self.with_txn(t, TransactionView { free_allocation: false, ..tx });
            match s1.buffer_get_result(tx.to as int, tx.data_address) {
                Some(alloc) => s1.buffer_get(tx.to as int, tx.data_address).release_buffer(
                    tx.to as int,
                    alloc,
                ),
                None => s1,
            }
        } else {
            self
        }
    }

    /// The engine after every transaction of a list was cancelled and its
    /// buffer released, first to last.
    pub open spec fn cancel_all(self, ts: Seq<TxnId>) -> BinderView
        decreases ts.len(),
    {
        if ts.len() == 0 {
            self
        } else {
            self.txn_cancel(ts[0] as int).txn_discard(ts[0] as int).cancel_all(ts.drop_first())
        }
    }

    /// The engine after the one-way queue of node `n` was emptied and
    /// every transaction in it cancelled.
    pub open spec fn cleanup_oneway(self, n: int) -> BinderView {
        self.with_node(n, self.nodes[n].take_oneway()).cancel_all(self.nodes[n].oneway_todo)
    }

    /// The engine after the one-way transaction in flight to node `n`
    /// finished. While the owner lives, the next one that waits goes to the
    /// owner and is in flight; with none waiting, none is in flight. Once
    /// the owner is dead, everything that waits is cancelled.
    pub open spec fn pending_oneway_finished(self, n: int) -> BinderView {
        let node = self.nodes[n];
        if !self.procs[node.owner as int].is_dead {
            let s1 = self.with_node(n, node.pop_oneway());
            if node.oneway_todo.len() > 0 {
                s1.push_work(node.owner as int, WorkItem::Transaction(node.oneway_todo[0]))
            } else {
                s1
            }
        } else {
            self.cleanup_oneway(n)
        }
    }

    /// The engine after a buffer taken from the arena of process `p` was
    /// freed: the node that it held back one-way transactions for goes on,
    /// then the buffer is released.
    pub open spec fn allocation_free(self, p: int, alloc: Allocation) -> BinderView {
        let s1 = match alloc.info {
            Some(info) => match info.oneway_node {
                Some(n) => self.pending_oneway_finished(n as int),
                None => self,
            },
            None => self,
        };
        s1.release_buffer(p, alloc)
    }

    /// The engine after userspace of process `p` freed the buffer that it
    /// sees at `ptr`.
    pub open spec fn free_buffer(self, p: int, ptr: usize) -> BinderView {
        match self.buffer_get_result(p, ptr) {
            Some(alloc) => self.buffer_get(p, ptr).allocation_free(p, alloc),
            None => self,
        }
    }

    /// The engine after an undelivered transaction was dropped: its
    /// buffer, if it is still the transaction's to free, is freed.
    pub open spec fn txn_drop(self, t: int) -> BinderView {
        let tx = self.txns[t];
        if tx.free_allocation {
            self.with_txn(t, TransactionView { free_allocation: false, ..tx }).free_buffer(
                tx.to as int,
                tx.data_address,
            )
        } else {
            self
        }
    }

    /// What `node_submit_oneway` answers: `Dead` when the transaction goes
    /// out at once and the owner cannot take it.
    pub open spec fn node_submit_oneway_result(self, n: int) -> Result<(), BinderError> {
        if self.nodes[n].has_pending_oneway_todo {
            Ok(())
        } else {
            self.push_work_result(self.nodes[n].owner as int)
        }
    }

    /// The engine after a one-way transaction was submitted to node `n`:
    /// it waits on the node while another one is in flight, else it goes to
    /// the owner and is in flight itself.
    pub open spec fn node_submit_oneway(self, n: int, t: TxnId) -> BinderView {
        let node = self.nodes[n];
        let s1 = self.with_node(n, node.submit_oneway(t));
        if node.has_pending_oneway_todo {
            s1
        } else {
            s1.push_work(node.owner as int, WorkItem::Transaction(t))
        }
    }

    /// What `txn_submit` answers: `Dead` when the thread or process that
    /// the transaction goes to cannot take it.
    pub open spec fn txn_submit_result(self, t: int) -> Result<(), BinderError> {
        let tx = self.txns[t];
        if tx.is_oneway() && tx.target_node.is_some() {
            self.node_submit_oneway_result(tx.target_node.unwrap() as int)
        } else {
            match self.find_target_thread(t) {
                Some(th) => if self.threads[th as int].is_dead {
                    Err(BinderError::Dead)
                } else {
                    Ok(())
                },
                None => self.push_work_result(tx.to as int),
            }
        }
    }

    /// The engine after transaction `t` was submitted. A one-way
    /// transaction goes through its node. Any other goes to the thread
    /// that waits for the chain it belongs to, if there is one, else to
    /// the recipient process.
    pub open spec fn txn_submit(self, t: int) -> BinderView {
        let tx = self.txns[t];
        if tx.is_oneway() && tx.target_node.is_some() {
            self.node_submit_oneway(tx.target_node.unwrap() as int, t as usize)
        } else {
            match self.find_target_thread(t) {
                Some(th) => self.thread_push_work(th as int, WorkItem::Transaction(t as usize)),
                None => self.push_work(tx.to as int, WorkItem::Transaction(t as usize)),
            }
        }
    }
}

impl Binder {
    /// Searches the transaction stack below transaction `t` for a thread of
    /// the recipient process: that thread waits for this call chain and
    /// takes the transaction.
    pub fn find_target_thread(&self, t: TxnId) -> (r: Option<ThreadId>)
        requires
            self@.wf(),
            t < self@.txns.len(),
        ensures
            r == self@.find_target_thread(t as int),
            r.is_some() ==> r.unwrap() < self@.threads.len() && self@.threads[r.unwrap() as int].process
                == self@.txns[t as int].to,
    {
        assert(self@.txns[t as int].valid(self@.lens(), t as int));
        let to: ProcId = self.txns[t].to;
        let mut it: Option<TxnId> = self.txns[t].stack_next;
        loop
            invariant
                self@.wf(),
                it.is_some() ==> it.unwrap() < self@.txns.len(),
                self@.stack_find_process(it, to) == self@.find_target_thread(t as int),
                to == self@.txns[t as int].to,
            decreases depth(it),
        {
            match it {
                None => {
                    return None;
                },
                Some(f) => {
                    assert(self@.txns[f as int].valid(self@.lens(), f as int));
                    let from: ThreadId = self.txns[f].from;
                    if self.threads[from].process == to {
                        return Some(from);
                    }
                    it = self.txns[f].stack_next;
                },
            }
        }
    }

    /// Searches the transaction stack below transaction `t` for a frame
    /// that `thread` sent.
    pub fn find_from(&self, t: TxnId, thread: ThreadId) -> (r: Option<TxnId>)
        requires
            self@.wf(),
            t < self@.txns.len(),
        ensures
            r == self@.find_from(t as int, thread),
            r.is_some() ==> r.unwrap() < self@.txns.len(),
    {
        assert(self@.txns[t as int].valid(self@.lens(), t as int));
        let mut it: Option<TxnId> = self.txns[t].stack_next;
        loop
            invariant
                self@.wf(),
                it.is_some() ==> it.unwrap() < self@.txns.len(),
                self@.stack_find_from(it, thread) == self@.find_from(t as int, thread),
            decreases depth(it),
        {
            match it {
                None => {
                    return None;
                },
                Some(f) => {
                    assert(self@.txns[f as int].valid(self@.lens(), f as int));
                    if self.txns[f].from == thread {
                        return Some(f);
                    }
                    it = self.txns[f].stack_next;
                },
            }
        }
    }

    /// Delivers a reply to transaction `t` to thread `th`, if `t` is the
    /// thread's current frame. Returns whether the thread turned out to
    /// be dead, so that the caller must unwind further.
    pub fn deliver_single_reply(&mut self, th: ThreadId, reply: WorkItem, t: TxnId) -> (unwind: bool)
        requires
            old(self)@.wf(),
            th < old(self)@.threads.len(),
            t < old(self)@.txns.len(),
            th == old(self)@.txns[t as int].from,
            reply.valid(old(self)@.lens()),
            old(self)@.item_for(reply, old(self)@.threads[th as int].process as int),
        ensures
            final(self)@ == old(self)@.deliver_single_reply(th as int, reply, t),
            unwind == old(self)@.deliver_single_reply_unwinds(th as int, t),
            final(self)@.wf(),
            final(self)@.extends(old(self)@),
            final(self)@.stays_down(old(self)@),
            final(self)@.same_oneway(old(self)@),
            final(self)@.lens() == old(self)@.lens(),
    {
        match self.threads[th].current_transaction {
            Some(cur) => {
                if cur != t {
                    return false;
                }
            },
            None => {
                return false;
            },
        }
        let next: Option<TxnId> = self.txns[t].stack_next;
        proof {
            let thread = self@.threads[th as int];
            assert(thread.valid(self@.lens()));
            assert(self@.txns[t as int].valid(self@.lens(), t as int));
            self@.lemma_routed();
            assert(self@.txn_routed(t as int));
            self@.lemma_with_thread(th as int, ThreadView { current_transaction: next, ..thread });
        }
        self.thread_mut(th).set_current_transaction(next);
        if self.threads[th].is_dead {
            match reply {
                WorkItem::Transaction(r) => self.txn_discard(r),
                _ => {},
            }
            return true;
        }
        self.thread_push_work(th, reply);
        false
    }

    /// Pops the frame that thread `th` is to reply to. Fails with `BadArg`
    /// when the thread has no current frame or sent the frame itself.
    pub fn pop_transaction_to_reply(&mut self, th: ThreadId) -> (r: Result<TxnId, BinderError>)
        requires
            old(self)@.wf(),
            th < old(self)@.threads.len(),
        ensures
            final(self)@ == old(self)@.pop_transaction_to_reply(th as int),
            r == old(self)@.pop_transaction_to_reply_result(th as int),
            r.is_ok() ==> r.unwrap() < old(self)@.txns.len(),
            final(self)@.wf(),
            final(self)@.extends(old(self)@),
            final(self)@.stays_down(old(self)@),
            final(self)@.same_oneway(old(self)@),
            final(self)@.lens() == old(self)@.lens(),
    {
        assert(self@.threads[th as int].valid(self@.lens()));
        let t: TxnId = match self.threads[th].current_transaction {
            None => {
                return Err(BinderError::BadArg);
            },
            Some(t) => t,
        };
        if self.txns[t].from == th {
            return Err(BinderError::BadArg);
        }
        let next: Option<TxnId> = self.find_from(t, th);
        proof {
            let thread = self@.threads[th as int];
            assert(self@.txns[t as int].valid(self@.lens(), t as int));
            self@.lemma_stack_find_from(self@.txns[t as int].stack_next, th);
            self@.lemma_with_thread(th as int, ThreadView { current_transaction: next, ..thread });
        }
        self.thread_mut(th).set_current_transaction(next);
        Ok(t)
    }

    /// Unwinds the transaction stack of a thread that is gone: every frame
    /// it serves is answered with `BR_DEAD_REPLY`.
    pub fn unwind_transaction_stack(&mut self, th: ThreadId)
        requires
            old(self)@.wf(),
            th < old(self)@.threads.len(),
        ensures
            final(self)@ == old(self)@.unwind_transaction_stack(th as int),
            final(self)@.wf(),
            final(self)@.extends(old(self)@),
            final(self)@.stays_down(old(self)@),
            final(self)@.same_oneway(old(self)@),
            final(self)@.lens() == old(self)@.lens(),
    {
        let mut thread: ThreadId = th;
        loop
            invariant
                self@.wf(),
                thread < self@.threads.len(),
                self@.lens() == old(self)@.lens(),
                self@.extends(old(self)@),
                self@.stays_down(old(self)@),
                self@.same_oneway(old(self)@),
                self@.unwind_transaction_stack(thread as int) == old(self)@.unwind_transaction_stack(
                    th as int,
                ),
            decreases depth(self@.threads[thread as int].current_transaction),
        {
            let ghost before = self@;
            match self.pop_transaction_to_reply(thread) {
                Err(_) => {
                    return ;
                },
                Ok(t) => {
                    assert(before.txns[t as int].valid(before.lens(), t as int));
                    let from: ThreadId = self.txns[t].from;
                    let unwind: bool = self.deliver_single_reply(
                        from,
                        WorkItem::Return(BR_DEAD_REPLY),
                        t,
                    );
                    if !unwind {
                        return ;
                    }
                    thread = from;
                },
            }
        }
    }

    /// Delivers a reply to transaction `t` to thread `th`; if the thread
    /// is dead, unwinds the stack of the transaction's sender.
    pub fn deliver_reply(&mut self, th: ThreadId, reply: WorkItem, t: TxnId)
        requires
            old(self)@.wf(),
            th < old(self)@.threads.len(),
            t < old(self)@.txns.len(),
            th == old(self)@.txns[t as int].from,
            reply.valid(old(self)@.lens()),
            old(self)@.item_for(reply, old(self)@.threads[th as int].process as int),
        ensures
            final(self)@ == old(self)@.deliver_reply(th as int, reply, t),
            final(self)@.wf(),
            final(self)@.extends(old(self)@),
            final(self)@.stays_down(old(self)@),
            final(self)@.same_oneway(old(self)@),
            final(self)@.lens() == old(self)@.lens(),
    {
        assert(self@.txns[t as int].valid(self@.lens(), t as int));
        let from: ThreadId = self.txns[t].from;
        if self.deliver_single_reply(th, reply, t) {
            self.unwind_transaction_stack(from);
        }
    }

    /// Cancels transaction `t`: the sender of a call that expects a reply
    /// gets `BR_DEAD_REPLY`.
    pub fn txn_cancel(&mut self, t: TxnId)
        requires
            old(self)@.wf(),
            t < old(self)@.txns.len(),
        ensures
            final(self)@ == old(self)@.txn_cancel(t as int),
            final(self)@.wf(),
            final(self)@.extends(old(self)@),
            final(self)@.stays_down(old(self)@),
            final(self)@.same_oneway(old(self)@),
            final(self)@.lens() == old(self)@.lens(),
    {
        assert(self@.txns[t as int].valid(self@.lens(), t as int));
        if self.txns[t].is_sync_call() {
            let from: ThreadId = self.txns[t].from;
            self.deliver_reply(from, WorkItem::Return(BR_DEAD_REPLY), t);
        }
    }

    /// Releases a buffer taken from the arena of process `p`.
    pub fn release_buffer(&mut self, p: ProcId, alloc: Allocation)
        requires
            old(self)@.wf(),
            p < old(self)@.procs.len(),
            alloc.info.is_some() ==> alloc.info.unwrap().valid(old(self)@.lens()),
        ensures
            final(self)@ == old(self)@.release_buffer(p as int, alloc),
            final(self)@.wf(),
            final(self)@.extends(old(self)@),
            final(self)@.stays_down(old(self)@),
            final(self)@.same_oneway(old(self)@),
            final(self)@.lens() == old(self)@.lens(),
    {
        let Allocation { offset, size, ptr, info } = alloc;
        match info {
            Some(info) => {
                let AllocationInfo { offsets, target_node, oneway_node: _, clear_on_free } = info;
                self.drop_node_ref_opt(target_node);
                match offsets {
                    Some((start, end)) => self.cleanup_objects(p, offset, start, start, end),
                    None => {},
                }
                if clear_on_free {
                    self.buffer_clear(p, offset, size);
                }
                self.buffer_raw_free(p, ptr);
            },
            None => {
                self.buffer_raw_free(p, ptr);
            },
        }
    }

    /// Marks that the buffer of transaction `t` is no longer the
    /// transaction's to free, and says whether it was.
    pub fn txn_take_allocation(&mut self, t: TxnId) -> (had: bool)
        requires
            old(self)@.wf(),
            t < old(self)@.txns.len(),
        ensures
            final(self)@ == old(self)@.with_txn(
                t as int,
                TransactionView { free_allocation: false, ..old(self)@.txns[t as int] },
            ),
            had == old(self)@.txns[t as int].free_allocation,
            final(self)@.wf(),
            final(self)@.extends(old(self)@),
            final(self)@.stays_down(old(self)@),
            final(self)@.same_oneway(old(self)@),
            final(self)@.lens() == old(self)@.lens(),
    {
        proof {
            let tx = self@.txns[t as int];
            assert(tx.valid(self@.lens(), t as int));
            self@.lemma_with_txn(t as int, TransactionView { free_allocation: false, ..tx });
        }
        let tx = self.txn_mut(t);
        let had: bool = tx.free_allocation;
        tx.free_allocation = false;
        had
    }

    /// Releases the buffer of an undelivered transaction without looking
    /// at the one-way queue of its node.
    pub fn txn_discard(&mut self, t: TxnId)
        requires
            old(self)@.wf(),
            t < old(self)@.txns.len(),
        ensures
            final(self)@ == old(self)@.txn_discard(t as int),
            final(self)@.wf(),
            final(self)@.extends(old(self)@),
            final(self)@.stays_down(old(self)@),
            final(self)@.same_oneway(old(self)@),
            final(self)@.lens() == old(self)@.lens(),
    {
        assert(self@.txns[t as int].valid(self@.lens(), t as int));
        if !self.txns[t].free_allocation {
            return ;
        }
        let to: ProcId = self.txns[t].to;
        let address: usize = self.txns[t].data_address;
        self.txn_take_allocation(t);
        match self.buffer_get(to, address) {
            Some(alloc) => self.release_buffer(to, alloc),
            None => {},
        }
    }

    /// Cancels every transaction of a list and releases its buffer.
    pub fn cancel_all(&mut self, ts: &Vec<TxnId>)
        requires
            old(self)@.wf(),
            crate::defs::ids_below(ts@, old(self)@.txns.len() as int),
        ensures
            final(self)@ == old(self)@.cancel_all(ts@),
            final(self)@.wf(),
            final(self)@.extends(old(self)@),
            final(self)@.stays_down(old(self)@),
            final(self)@.same_oneway(old(self)@),
            final(self)@.lens() == old(self)@.lens(),
    {
        let mut i: usize = 0;
        proof {
            assert(ts@.subrange(0, ts@.len() as int) =~= ts@);
        }
        while i < ts.len()
            invariant
                i <= ts@.len(),
                self@.wf(),
                self@.lens() == old(self)@.lens(),
                self@.extends(old(self)@),
                self@.stays_down(old(self)@),
                self@.same_oneway(old(self)@),
                crate::defs::ids_below(ts@, self@.txns.len() as int),
                self@.cancel_all(ts@.subrange(i as int, ts@.len() as int)) == old(self)@.cancel_all(
                    ts@,
                ),
            decreases ts@.len() - i,
        {
            let t: TxnId = ts[i];
            proof {
                let rest = ts@.subrange(i as int, ts@.len() as int);
                assert(rest[0] == t);
                assert(rest.drop_first() =~= ts@.subrange(i + 1, ts@.len() as int));
            }
            self.txn_cancel(t);
            self.txn_discard(t);
            i = i + 1;
        }
    }

    /// Empties the one-way queue of node `n` and cancels what waited in it.
    /// Afterwards the queue is empty and nothing counts as in flight to the
    /// node; the queues of the other nodes are as they were.
    pub fn cleanup_oneway(&mut self, n: NodeId)
        requires
            old(self)@.wf(),
            n < old(self)@.nodes.len(),
        ensures
            final(self)@ == old(self)@.cleanup_oneway(n as int),
            final(self)@.wf(),
            final(self)@.extends(old(self)@),
            final(self)@.nodes[n as int].oneway_todo.len() == 0,
            !final(self)@.nodes[n as int].has_pending_oneway_todo,
            forall|m: int|
                0 <= m < old(self)@.nodes.len() && m != n ==> (#[trigger] final(self)@.nodes[m]).oneway_todo
                    == old(self)@.nodes[m].oneway_todo && final(self)@.nodes[m].has_pending_oneway_todo
                    == old(self)@.nodes[m].has_pending_oneway_todo,
            final(self)@.stays_down(old(self)@),
            final(self)@.lens() == old(self)@.lens(),
    {
        proof {
            let node = self@.nodes[n as int];
            assert(node.valid(self@.lens()));
            self@.lemma_txns_to_ops(Seq::empty(), node.owner as int, 0);
            self@.lemma_with_node(n as int, node.take_oneway());
        }
        let waiting: Vec<TxnId> = self.node_mut(n).take_oneway_locked();
        self.cancel_all(&waiting);
    }

    /// The one-way transaction in flight to node `n` is finished: the next
    /// one goes out, or, once the owner is dead, all that wait are cancelled.
    pub fn pending_oneway_finished(&mut self, n: NodeId)
        requires
            old(self)@.wf(),
            n < old(self)@.nodes.len(),
        ensures
            final(self)@ == old(self)@.pending_oneway_finished(n as int),
            final(self)@.wf(),
            final(self)@.extends(old(self)@),
            final(self)@.stays_down(old(self)@),
            final(self)@.lens() == old(self)@.lens(),
    {
        let ghost node = self@.nodes[n as int];
        assert(node.valid(self@.lens()));
        let owner: ProcId = self.nodes[n].owner;
        if self.procs[owner].inner.is_dead {
            self.cleanup_oneway(n);
            return ;
        }
        proof {
            node.lemma_oneway_queue(0);
            crate::defs::lemma_ids_below_ops(node.oneway_todo, self@.lens().txns, 0, 0);
            self@.lemma_routed();
            assert(self@.node_routed(n as int));
            self@.lemma_txns_to_ops(node.oneway_todo, node.owner as int, 0);
            self@.lemma_with_node(n as int, node.pop_oneway());
        }
        match self.node_mut(n).pop_oneway_locked() {
            Some(t) => {
                let _ = self.push_work(owner, WorkItem::Transaction(t));
            },
            None => {},
        }
    }

    /// Frees a buffer taken from the arena of process `p`.
    pub fn allocation_free(&mut self, p: ProcId, alloc: Allocation)
        requires
            old(self)@.wf(),
            p < old(self)@.procs.len(),
            alloc.info.is_some() ==> alloc.info.unwrap().valid(old(self)@.lens()),
        ensures
            final(self)@ == old(self)@.allocation_free(p as int, alloc),
            final(self)@.wf(),
            final(self)@.extends(old(self)@),
            final(self)@.stays_down(old(self)@),
            final(self)@.lens() == old(self)@.lens(),
    {
        let oneway: Option<NodeId> = match &alloc.info {
            Some(info) => info.oneway_node,
            None => None,
        };
        match oneway {
            Some(n) => self.pending_oneway_finished(n),
            None => {},
        }
        self.release_buffer(p, alloc);
    }

    /// Userspace of process `p` frees the buffer that it sees at `ptr`.
    pub fn free_buffer(&mut self, p: ProcId, ptr: usize)
        requires
            old(self)@.wf(),
            p < old(self)@.procs.len(),
        ensures
            final(self)@ == old(self)@.free_buffer(p as int, ptr),
            final(self)@.wf(),
            final(self)@.extends(old(self)@),
            final(self)@.stays_down(old(self)@),
            final(self)@.lens() == old(self)@.lens(),
    {
        match self.buffer_get(p, ptr) {
            Some(alloc) => self.allocation_free(p, alloc),
            None => {},
        }
    }

    /// Drops an undelivered transaction: frees its buffer if that is still
    /// the transaction's to free.
    pub fn txn_drop(&mut self, t: TxnId)
        requires
            old(self)@.wf(),
            t < old(self)@.txns.len(),
        ensures
            final(self)@ == old(self)@.txn_drop(t as int),
            final(self)@.wf(),
            final(self)@.extends(old(self)@),
            final(self)@.stays_down(old(self)@),
            final(self)@.lens() == old(self)@.lens(),
    {
        assert(self@.txns[t as int].valid(self@.lens(), t as int));
        if !self.txns[t].free_allocation {
            return ;
        }
        let to: ProcId = self.txns[t].to;
        let address: usize = self.txns[t].data_address;
        self.txn_take_allocation(t);
        self.free_buffer(to, address);
    }

    /// Submits a one-way transaction to node `n`.
    pub fn node_submit_oneway(&mut self, n: NodeId, t: TxnId) -> (r: Result<(), BinderError>)
        requires
            old(self)@.wf(),
            n < old(self)@.nodes.len(),
            t < old(self)@.txns.len(),
            old(self)@.txns[t as int].to == old(self)@.nodes[n as int].owner,
        ensures
            final(self)@ == old(self)@.node_submit_oneway(n as int, t),
            r == old(self)@.node_submit_oneway_result(n as int),
            final(self)@.wf(),
            final(self)@.extends(old(self)@),
            final(self)@.lens() == old(self)@.lens(),
    {
        let ghost node = self@.nodes[n as int];
        proof {
            assert(node.valid(self@.lens()));
            node.lemma_oneway_queue(t);
            crate::defs::lemma_ids_below_ops(node.oneway_todo, self@.lens().txns, t, 0);
            self@.lemma_routed();
            assert(self@.node_routed(n as int));
            self@.lemma_txns_to_ops(node.oneway_todo, node.owner as int, t);
            self@.lemma_with_node(n as int, node.submit_oneway(t));
        }
        let owner: ProcId = self.nodes[n].owner;
        if self.node_mut(n).submit_oneway_locked(t) {
            self.push_work(owner, WorkItem::Transaction(t))
        } else {
            Ok(())
        }
    }

    /// Submits transaction `t` to a work queue: that of the thread that
    /// waits for its call chain, if there is one, else that of the
    /// recipient process. A one-way transaction goes through its node. Not
    /// used for replies.
    pub fn txn_submit(&mut self, t: TxnId) -> (r: Result<(), BinderError>)
        requires
            old(self)@.wf(),
            t < old(self)@.txns.len(),
        ensures
            final(self)@ == old(self)@.txn_submit(t as int),
            r == old(self)@.txn_submit_result(t as int),
            final(self)@.wf(),
            final(self)@.extends(old(self)@),
            final(self)@.lens() == old(self)@.lens(),
    {
        assert(self@.txns[t as int].valid(self@.lens(), t as int));
        proof {
            self@.lemma_routed();
            assert(self@.txn_routed(t as int));
        }
        if self.txns[t].is_oneway() {
            match self.txns[t].target_node {
                Some(n) => {
                    return self.node_submit_oneway(n, t);
                },
                None => {},
            }
        }
        match self.find_target_thread(t) {
            Some(th) => {
                if self.thread_push_work(th, WorkItem::Transaction(t)) {
                    Ok(())
                } else {
                    Err(BinderError::Dead)
                }
            },
            None => {
                let to: ProcId = self.txns[t].to;
                self.push_new_transaction(to, t)
            },
        }
    }
}

} // verus!

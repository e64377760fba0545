//! What holds of every well-formed engine. Every operation of the engine
//! keeps the engine well-formed, so these hold after each of them.

use vstd::prelude::*;
use crate::binder::BinderView;
use crate::defs::{NodeId, ThreadId};
use crate::node_refs::{by_global_id, by_handle, lemma_maps_agree};

verus! {

impl BinderView {
    /// No node has more than two acquisitions reported and unacknowledged.
    pub proof fn lemma_active_inc_refs_bounded(self, n: int)
        requires
            self.wf(),
            0 <= n < self.nodes.len(),
        ensures
            self.nodes[n].refs.active_inc_refs <= 2,
            self.nodes[n].refs.active_inc_refs as int <= (if self.nodes[n].refs.strong.has_count {
                1int
            } else {
                0int
            }) + (if self.nodes[n].refs.weak.has_count { 1int } else { 0int }),
    {
        assert(self.nodes[n].valid(self.lens()));
    }

    /// One-way transactions wait on a node only while one is in flight: a
    /// node with none in flight has an empty queue.
    pub proof fn lemma_oneway_queue_waits(self, n: int)
        requires
            self.wf(),
            0 <= n < self.nodes.len(),
        ensures
            !self.nodes[n].has_pending_oneway_todo ==> self.nodes[n].oneway_todo.len() == 0,
    {
        assert(self.nodes[n].valid(self.lens()));
    }

    /// An aborted death subscription is a cleared one.
    pub proof fn lemma_aborted_is_cleared(self, d: int)
        requires
            self.wf(),
            0 <= d < self.deaths.len(),
        ensures
            self.deaths[d].inner.aborted ==> self.deaths[d].inner.cleared,
    {
        assert(self.deaths[d].valid(self.lens()));
    }

    /// In the handle table of every process, the row of a handle names a
    /// node whose global id maps back to the handle, and the handle found
    /// under a node's global id has a row that names that node.
    pub proof fn lemma_handle_tables_agree(self, p: int)
        requires
            self.wf(),
            0 <= p < self.procs.len(),
        ensures
            forall|h: u32| #[trigger]
                by_handle(self.procs[p].node_refs).dom().contains(h) ==> by_global_id(
                    self.procs[p].node_refs,
                ).dom().contains(by_handle(self.procs[p].node_refs)[h].node_ref.node)
                    && by_global_id(self.procs[p].node_refs)[by_handle(
                    self.procs[p].node_refs,
                )[h].node_ref.node] == h,
            forall|g: NodeId| #[trigger]
                by_global_id(self.procs[p].node_refs).dom().contains(g) ==> by_handle(
                    self.procs[p].node_refs,
                ).dom().contains(by_global_id(self.procs[p].node_refs)[g]) && by_handle(
                    self.procs[p].node_refs,
                )[by_global_id(self.procs[p].node_refs)[g]].node_ref.node == g,
    {
        assert(self.procs[p].valid(self.lens()));
        lemma_maps_agree(self.procs[p].node_refs);
    }

    /// The frame on top of the transaction stack of a thread is one that
    /// the thread sent itself, or one that was sent to the thread's
    /// process; and the frame below a transaction was such a frame for its
    /// sender when the transaction was sent.
    pub proof fn lemma_frames_belong(self, t: int)
        requires
            self.wf(),
            0 <= t < self.threads.len(),
        ensures
            self.threads[t].current_transaction.is_some() ==> self.txns[self.threads[t].current_transaction.unwrap() as int].from
                == t || self.txns[self.threads[t].current_transaction.unwrap() as int].to
                == self.threads[t].process,
            forall|c: int|
                0 <= c < self.txns.len() && (#[trigger] self.txns[c]).stack_next.is_some()
                    ==> self.txns[self.txns[c].stack_next.unwrap() as int].from == self.txns[c].from
                    || self.txns[self.txns[c].stack_next.unwrap() as int].to
                    == self.threads[self.txns[c].from as int].process,
    {
        self.lemma_routed();
        assert(self.thread_routed(t));
        assert forall|c: int|
            0 <= c < self.txns.len() && (
            #[trigger] self.txns[c]).stack_next.is_some() implies self.txns[self.txns[c].stack_next.unwrap() as int].from
            == self.txns[c].from || self.txns[self.txns[c].stack_next.unwrap() as int].to
            == self.threads[self.txns[c].from as int].process by {
            assert(self.txn_routed(c));
        }
    }

    /// A transaction waits only in queues of the process that it was sent
    /// to: the queue of that process, the queues of its threads, and the
    /// one-way queues of its nodes.
    pub proof fn lemma_queues_belong(self, c: crate::defs::TxnId)
        requires
            self.wf(),
        ensures
            forall|p: int, i: int|
                0 <= p < self.procs.len() && 0 <= i < self.procs[p].work.len()
                    && #[trigger] self.procs[p].work[i] == crate::defs::WorkItem::Transaction(c)
                    ==> self.txns[c as int].to == p,
            forall|t: int, i: int|
                0 <= t < self.threads.len() && 0 <= i < self.threads[t].work_list.len()
                    && #[trigger] self.threads[t].work_list[i]
                    == crate::defs::WorkItem::Transaction(c) ==> self.txns[c as int].to
                    == self.threads[t].process,
            forall|n: int, i: int|
                0 <= n < self.nodes.len() && 0 <= i < self.nodes[n].oneway_todo.len()
                    && #[trigger] self.nodes[n].oneway_todo[i] == c ==> self.txns[c as int].to
                    == self.nodes[n].owner,
    {
        self.lemma_routed();
        assert forall|p: int, i: int|
            0 <= p < self.procs.len() && 0 <= i < self.procs[p].work.len()
                && #[trigger] self.procs[p].work[i] == crate::defs::WorkItem::Transaction(
                c,
            ) implies self.txns[c as int].to == p by {
            assert(self.proc_routed(p));
            assert(self.item_for(self.procs[p].work[i], p));
        }
        assert forall|t: int, i: int|
            0 <= t < self.threads.len() && 0 <= i < self.threads[t].work_list.len()
                && #[trigger] self.threads[t].work_list[i] == crate::defs::WorkItem::Transaction(
                c,
            ) implies self.txns[c as int].to == self.threads[t].process by {
            assert(self.thread_routed(t));
            assert(self.item_for(self.threads[t].work_list[i], self.threads[t].process as int));
        }
        assert forall|n: int, i: int|
            0 <= n < self.nodes.len() && 0 <= i < self.nodes[n].oneway_todo.len()
                && #[trigger] self.nodes[n].oneway_todo[i] == c implies self.txns[c as int].to
            == self.nodes[n].owner by {
            assert(self.node_routed(n));
        }
    }

    /// The frame that a thread finds on top of its stack after it popped
    /// one to reply to is a frame that the thread sent itself, or none; the
    /// frame that it popped was sent by another thread.
    pub proof fn lemma_frame_after_reply(self, th: ThreadId)
        requires
            self.wf(),
            th < self.threads.len(),
            self.pop_transaction_to_reply_result(th as int).is_ok(),
        ensures
            ({
                let top = self.pop_transaction_to_reply(th as int).threads[th as int].current_transaction;
                top.is_some() ==> top.unwrap() < self.txns.len() && self.txns[top.unwrap() as int].from
                    == th
            }),
            self.txns[self.pop_transaction_to_reply_result(th as int).unwrap() as int].from != th,
    {
        assert(self.threads[th as int].valid(self.lens()));
        let t = self.pop_transaction_to_reply_result(th as int).unwrap();
        assert(self.txns[t as int].valid(self.lens(), t as int));
        self.lemma_stack_find_from(self.txns[t as int].stack_next, th);
    }
}

} // verus!

//! How threads and processes end: a thread that exits, and the deferred
//! release of a process, which cancels what is queued, frees every buffer,
//! ends every subscription and reports the death of every node.

use vstd::prelude::*;
use crate::binder::{Binder, BinderView};
use crate::defs::{
    ids_below, items_valid, ContextId, DeathId, NodeId, ProcId, ThreadId, WorkItem,
    PROC_DEFER_FLUSH, PROC_DEFER_RELEASE,
};
use crate::lists::{lemma_without_keeps_bound, remove_value, without};
use crate::node::NodeView;
use crate::node_refs::{rows_valid, HandleEntry};
use crate::process::{AllocationInfo, ProcessView};
use crate::range_alloc::{Slot, SlotState};
use crate::thread::ThreadView;

verus! {

/// The addresses of the committed buffers among the first `n` slots of an
/// arena that starts at `address`, in address order.
pub open spec fn committed_ptrs(slots: Seq<Slot<AllocationInfo>>, address: usize, n: int) -> Seq<usize>
    decreases n,
{
    if n <= 0 {
        Seq::empty()
    } else if slots[n - 1].state == SlotState::Committed && address + slots[n - 1].offset
        <= usize::MAX {
        committed_ptrs(slots, address, n - 1).push((address + slots[n - 1].offset) as usize)
    } else {
        committed_ptrs(slots, address, n - 1)
    }
}

impl BinderView {
    /// The engine after every item of a list of work was cancelled and
    /// dropped, first to last.
    pub open spec fn cancel_work(self, items: Seq<WorkItem>) -> BinderView
        decreases items.len(),
    {
        if items.len() == 0 {
            self
        } else {
            (match items[0] {
                WorkItem::Transaction(t) => self.txn_cancel(t as int).txn_drop(t as int),
                _ => self,
            }).cancel_work(items.drop_first())
        }
    }

    /// The work that a thread gives up when it is released: what is in
    /// its queue, if the queue is due for delivery.
    pub open spec fn released_work(self, t: int) -> Seq<WorkItem> {
        if self.threads[t].process_work_list {
            self.threads[t].work_list
        } else {
            Seq::empty()
        }
    }

    /// The engine after thread `t` was released: it waits no more, it is
    /// dead, the work in its queue is cancelled, and every frame that it
    /// serves is answered with `BR_DEAD_REPLY`.
    pub open spec fn thread_release(self, t: int) -> BinderView {
        let s1 = self.stop_waiting(t);
        let thread = self.threads[t];
        s1.with_thread(
            t,
            ThreadView {
                is_dead: true,
                process_work_list: false,
                work_list: if thread.process_work_list {
                    Seq::empty()
                } else {
                    thread.work_list
                },
                ..thread
            },
        ).cancel_work(self.released_work(t)).unwind_transaction_stack(t)
    }

    /// The engine after thread `t` left process `p` and was released.
    pub open spec fn remove_thread(self, p: int, t: ThreadId) -> BinderView {
        self.with_proc(
            p,
            ProcessView { threads: without(self.procs[p].threads, t), ..self.procs[p] },
        ).thread_release(t as int)
    }

    /// The engine after every thread of a list was released.
    pub open spec fn release_threads(self, ts: Seq<ThreadId>) -> BinderView
        decreases ts.len(),
    {
        if ts.len() == 0 {
            self
        } else {
            self.thread_release(ts[0] as int).release_threads(ts.drop_first())
        }
    }

    /// The engine after every buffer of a list was freed.
    pub open spec fn free_all(self, p: int, ptrs: Seq<usize>) -> BinderView
        decreases ptrs.len(),
    {
        if ptrs.len() == 0 {
            self
        } else {
            self.free_buffer(p, ptrs[0]).free_all(p, ptrs.drop_first())
        }
    }

    /// The engine after the subscription of every row of a list that has
    /// one was cleared.
    pub open spec fn clear_deaths(self, rows: Seq<HandleEntry>) -> BinderView
        decreases rows.len(),
    {
        if rows.len() == 0 {
            self
        } else {
            (match rows[0].info.death {
                Some(d) => self.death_set_cleared(d as int, false),
                None => self,
            }).clear_deaths(rows.drop_first())
        }
    }

    /// Clearing subscriptions changes neither the thread table nor the
    /// node table of a process.
    pub proof fn lemma_clear_deaths_keeps(self, p: int, rows: Seq<HandleEntry>)
        requires
            0 <= p < self.procs.len(),
        ensures
            self.clear_deaths(rows).procs.len() == self.procs.len(),
            self.clear_deaths(rows).procs[p].threads == self.procs[p].threads,
            self.clear_deaths(rows).procs[p].nodes == self.procs[p].nodes,
            self.clear_deaths(rows).procs[p] == self.procs[p],
        decreases rows.len(),
    {
        if rows.len() > 0 {
            let s1 = match rows[0].info.death {
                Some(d) => self.death_set_cleared(d as int, false),
                None => self,
            };
            s1.lemma_clear_deaths_keeps(p, rows.drop_first());
        }
    }

    /// The engine after the reference of every row of a list was given up.
    pub open spec fn drop_refs(self, rows: Seq<HandleEntry>) -> BinderView
        decreases rows.len(),
    {
        if rows.len() == 0 {
            self
        } else {
            self.drop_node_ref(rows[0].info.node_ref).drop_refs(rows.drop_first())
        }
    }

    /// The engine after the one-way queue of every node of a list was
    /// emptied and what waited in it cancelled.
    pub open spec fn cleanup_all_oneway(self, ns: Seq<NodeId>) -> BinderView
        decreases ns.len(),
    {
        if ns.len() == 0 {
            self
        } else {
            self.cleanup_oneway(ns[0] as int).cleanup_all_oneway(ns.drop_first())
        }
    }

    /// The engine after every subscription of a list was told that its
    /// node is dead.
    pub open spec fn set_dead_all(self, ds: Seq<DeathId>) -> BinderView
        decreases ds.len(),
    {
        if ds.len() == 0 {
            self
        } else {
            self.death_set_dead(ds[0] as int).set_dead_all(ds.drop_first())
        }
    }

    /// The engine after the death of every node of a list was reported to
    /// the node's subscribers, oldest subscription first; the nodes have
    /// no subscribers left.
    pub open spec fn deliver_deaths(self, ns: Seq<NodeId>) -> BinderView
        decreases ns.len(),
    {
        if ns.len() == 0 {
            self
        } else {
            let node = self.nodes[ns[0] as int];
            self.with_node(ns[0] as int, NodeView { death_list: Seq::empty(), ..node }).set_dead_all(
                node.death_list,
            ).deliver_deaths(ns.drop_first())
        }
    }

    /// The addresses of the committed buffers of process `p`.
    pub open spec fn committed_buffers(self, p: int) -> Seq<usize> {
        match self.procs[p].mapping {
            Some(m) => committed_ptrs(m.slots, m.address, m.slots.len() as int),
            None => Seq::empty(),
        }
    }

    /// The engine after the deferred release of process `p`.
    ///
    /// The process is marked dead. If it is the manager of its context,
    /// the manager slot is emptied. It leaves its context. The work in its
    /// queue is cancelled. Every committed buffer is freed, which gives up
    /// the references it holds and lets its node go on, and the arena is
    /// gone. The handle table is emptied and the subscriptions made
    /// through it are cleared. The one-way queues of its nodes are
    /// cancelled and its threads released. The death of each of its nodes
    /// is reported to the node's subscribers. Last, the references that
    /// the handle table held are given up.
    pub open spec fn deferred_release(self, p: int) -> BinderView {
        let s5 = self.release_begin(p);
        s5.release_detach(p).release_finish(
            s5.procs[p].node_refs,
            s5.procs[p].threads,
            s5.procs[p].nodes,
        )
    }

    /// The first part of a release: the process is marked dead, gives up
    /// the manager slot if it holds it, leaves its context, and has the
    /// work in its queue cancelled and its committed buffers freed.
    pub open spec fn release_begin(self, p: int) -> BinderView {
        let pr = self.procs[p];
        let c = pr.ctx as int;
        let s1 = self.with_proc(p, ProcessView { is_dead: true, ..pr });
        let s2 = if pr.is_manager {
            s1.unset_manager_node(c)
        } else {
            s1
        };
        let s3 = s2.deregister_process(c, p as usize);
        let s4 = s3.with_proc(p, ProcessView { work: Seq::empty(), ..s3.procs[p] }).cancel_work(
            s3.procs[p].work,
        );
        s4.free_all(p, s4.committed_buffers(p))
    }

    /// The second part of a release: the arena is gone, the handle, thread
    /// and node tables are emptied, and the subscriptions made through the
    /// handle table are cleared.
    pub open spec fn release_detach(self, p: int) -> BinderView {
        let s6 = self.with_proc(
            p,
            ProcessView { mapping: None, node_refs: Seq::empty(), ..self.procs[p] },
        ).clear_deaths(self.procs[p].node_refs);
        s6.with_proc(
            p,
            ProcessView { threads: Seq::empty(), nodes: Seq::empty(), ..s6.procs[p] },
        )
    }

    /// The last part of a release, on what the tables held: the one-way
    /// queues of the nodes `ns` are cancelled, the threads `ts` released,
    /// the death of each node reported to its subscribers, and the
    /// references of the rows `rows` given up.
    pub open spec fn release_finish(
        self,
        rows: Seq<HandleEntry>,
        ts: Seq<ThreadId>,
        ns: Seq<NodeId>,
    ) -> BinderView {
        self.cleanup_all_oneway(ns).release_threads(ts).deliver_deaths(ns).drop_refs(rows)
    }

    /// The engine after the deferred work of process `p` was run: what
    /// was recorded is done, the flush before the release, and nothing is
    /// recorded any more.
    pub open spec fn run_deferred(self, p: int) -> BinderView {
        let defer = self.procs[p].defer_work;
        let s1 = self.with_proc(p, ProcessView { defer_work: 0, ..self.procs[p] });
        let s2 = if defer & PROC_DEFER_FLUSH != 0 {
            s1.deferred_flush(p)
        } else {
            s1
        };
        if defer & PROC_DEFER_RELEASE != 0 {
            s2.deferred_release(p)
        } else {
            s2
        }
    }
}

impl Binder {
    /// Cancels and drops every item of a list of work.
    pub fn cancel_work(&mut self, items: &Vec<WorkItem>)
        requires
            old(self)@.wf(),
            items_valid(items@, old(self)@.lens()),
        ensures
            final(self)@ == old(self)@.cancel_work(items@),
            final(self)@.wf(),
            final(self)@.extends(old(self)@),
            final(self)@.stays_down(old(self)@),
            final(self)@.lens() == old(self)@.lens(),
    {
        let mut i: usize = 0;
        proof {
            assert(items@.subrange(0, items@.len() as int) =~= items@);
        }
        while i < items.len()
            invariant
                i <= items@.len(),
                self@.wf(),
                self@.lens() == old(self)@.lens(),
                self@.extends(old(self)@),
                self@.stays_down(old(self)@),
                items_valid(items@, self@.lens()),
                self@.cancel_work(items@.subrange(i as int, items@.len() as int)) == old(self)@.cancel_work(items@),
            decreases items@.len() - i,
        {
            let it: WorkItem = items[i];
            proof {
                let rest = items@.subrange(i as int, items@.len() as int);
                assert(rest[0] == it);
                assert(rest.drop_first() =~= items@.subrange(i + 1, items@.len() as int));
                assert(items@[i as int].valid(self@.lens()));
            }
            match it {
                WorkItem::Transaction(t) => {
                    self.txn_cancel(t);
                    self.txn_drop(t);
                },
                _ => {},
            }
            i = i + 1;
        }
    }

    /// Takes the work that thread `t` gives up when it is released, and
    /// marks the thread dead.
    fn thread_take_work(&mut self, t: ThreadId) -> (items: Vec<WorkItem>)
        requires
            old(self)@.wf(),
            t < old(self)@.threads.len(),
        ensures
            items@ == old(self)@.released_work(t as int),
            items_valid(items@, old(self)@.lens()),
            final(self)@ == old(self)@.with_thread(
                t as int,
                ThreadView {
                    is_dead: true,
                    process_work_list: false,
                    work_list: if old(self)@.threads[t as int].process_work_list {
                        Seq::empty()
                    } else {
                        old(self)@.threads[t as int].work_list
                    },
                    ..old(self)@.threads[t as int]
                },
            ),
            final(self)@.wf(),
            final(self)@.extends(old(self)@),
            final(self)@.stays_down(old(self)@),
            final(self)@.lens() == old(self)@.lens(),
    {
        let ghost thread = self@.threads[t as int];
        proof {
            assert(thread.valid(self@.lens()));
            self@.lemma_with_thread(
                t as int,
                ThreadView {
                    is_dead: true,
                    process_work_list: false,
                    work_list: Seq::empty(),
                    ..thread
                },
            );
            self@.lemma_with_thread(
                t as int,
                ThreadView { is_dead: true, process_work_list: false, ..thread },
            );
        }
        let th = self.thread_mut(t);
        th.is_dead = true;
        let mut items: Vec<WorkItem> = Vec::new();
        if th.process_work_list {
            while th.work_list.len() > 0
                invariant
                    items@ + th.work_list@ == thread.work_list,
                    th@ == (ThreadView { is_dead: true, work_list: th.work_list@, ..thread }),
                decreases th.work_list@.len(),
            {
                let ghost before = th.work_list@;
                let ghost got = items@;
                match th.work_list.pop_front() {
                    Some(w) => {
                        items.push(w);
                        proof {
                            assert(items@ + th.work_list@ =~= got + before);
                        }
                    },
                    None => {},
                }
            }
            proof {
                assert(items@ =~= items@ + th.work_list@);
                assert(th.work_list@ =~= Seq::<WorkItem>::empty());
            }
        }
        th.process_work_list = false;
        items
    }

    /// Releases thread `t`: cancels the work in its queue and answers
    /// every frame that it serves with `BR_DEAD_REPLY`.
    pub fn thread_release(&mut self, t: ThreadId)
        requires
            old(self)@.wf(),
            t < old(self)@.threads.len(),
        ensures
            final(self)@ == old(self)@.thread_release(t as int),
            final(self)@.wf(),
            final(self)@.extends(old(self)@),
            final(self)@.stays_down(old(self)@),
            final(self)@.lens() == old(self)@.lens(),
    {
        assert(self@.threads[t as int].valid(self@.lens()));
        let p: ProcId = self.threads[t].process;
        self.unregister(p, t);
        let items: Vec<WorkItem> = self.thread_take_work(t);
        self.cancel_work(&items);
        self.unwind_transaction_stack(t);
    }

    /// Handles `BINDER_THREAD_EXIT`: thread `t` leaves process `p` and is released.
    pub fn remove_thread(&mut self, p: ProcId, t: ThreadId)
        requires
            old(self)@.wf(),
            p < old(self)@.procs.len(),
            t < old(self)@.threads.len(),
        ensures
            final(self)@ == old(self)@.remove_thread(p as int, t),
            final(self)@.wf(),
            final(self)@.extends(old(self)@),
            final(self)@.stays_down(old(self)@),
            final(self)@.lens() == old(self)@.lens(),
    {
        proof {
            let pr = self@.procs[p as int];
            assert(pr.valid(self@.lens()));
            lemma_without_keeps_bound(pr.threads, t, self@.lens().threads);
            self@.lemma_with_proc(p as int, ProcessView { threads: without(pr.threads, t), ..pr });
        }
        remove_value(&mut self.proc_mut(p).inner.threads, t);
        self.thread_release(t);
    }

    /// Releases every thread of a list.
    pub fn release_threads(&mut self, ts: &Vec<ThreadId>)
        requires
            old(self)@.wf(),
            ids_below(ts@, old(self)@.threads.len() as int),
        ensures
            final(self)@ == old(self)@.release_threads(ts@),
            final(self)@.wf(),
            final(self)@.extends(old(self)@),
            final(self)@.stays_down(old(self)@),
            final(self)@.lens() == old(self)@.lens(),
    {
        let mut i: usize = 0;
        proof {
            assert(ts@.subrange(0, ts@.len() as int) =~= ts@);
        }
        while i < ts.len()
            invariant
                i <= ts@.len(),
                self@.wf(),
                self@.lens() == old(self)@.lens(),
                self@.extends(old(self)@),
                self@.stays_down(old(self)@),
                ids_below(ts@, self@.threads.len() as int),
                self@.release_threads(ts@.subrange(i as int, ts@.len() as int)) == old(self)@.release_threads(ts@),
            decreases ts@.len() - i,
        {
            let t: ThreadId = ts[i];
            proof {
                let rest = ts@.subrange(i as int, ts@.len() as int);
                assert(rest[0] == t);
                assert(rest.drop_first() =~= ts@.subrange(i + 1, ts@.len() as int));
            }
            self.thread_release(t);
            i = i + 1;
        }
    }

    /// Frees every buffer of a list of addresses in the arena of process `p`.
    pub fn free_all(&mut self, p: ProcId, ptrs: &Vec<usize>)
        requires
            old(self)@.wf(),
            p < old(self)@.procs.len(),
        ensures
            final(self)@ == old(self)@.free_all(p as int, ptrs@),
            final(self)@.wf(),
            final(self)@.extends(old(self)@),
            final(self)@.stays_down(old(self)@),
            final(self)@.lens() == old(self)@.lens(),
    {
        let mut i: usize = 0;
        proof {
            assert(ptrs@.subrange(0, ptrs@.len() as int) =~= ptrs@);
        }
        while i < ptrs.len()
            invariant
                i <= ptrs@.len(),
                self@.wf(),
                p < self@.procs.len(),
                self@.lens() == old(self)@.lens(),
                self@.extends(old(self)@),
                self@.stays_down(old(self)@),
                self@.free_all(p as int, ptrs@.subrange(i as int, ptrs@.len() as int)) == old(self)@.free_all(p as int, ptrs@),
            decreases ptrs@.len() - i,
        {
            let ptr: usize = ptrs[i];
            proof {
                let rest = ptrs@.subrange(i as int, ptrs@.len() as int);
                assert(rest[0] == ptr);
                assert(rest.drop_first() =~= ptrs@.subrange(i + 1, ptrs@.len() as int));
            }
            self.free_buffer(p, ptr);
            i = i + 1;
        }
    }

    /// Clears the subscription of every row of a list that has one.
    pub fn clear_deaths(&mut self, rows: &Vec<HandleEntry>)
        requires
            old(self)@.wf(),
            rows_valid(rows@, old(self)@.lens()),
        ensures
            final(self)@ == old(self)@.clear_deaths(rows@),
            final(self)@.wf(),
            final(self)@.extends(old(self)@),
            final(self)@.stays_down(old(self)@),
            final(self)@.lens() == old(self)@.lens(),
    {
        let mut i: usize = 0;
        proof {
            assert(rows@.subrange(0, rows@.len() as int) =~= rows@);
        }
        while i < rows.len()
            invariant
                i <= rows@.len(),
                self@.wf(),
                self@.lens() == old(self)@.lens(),
                self@.extends(old(self)@),
                self@.stays_down(old(self)@),
                rows_valid(rows@, self@.lens()),
                self@.clear_deaths(rows@.subrange(i as int, rows@.len() as int)) == old(self)@.clear_deaths(rows@),
            decreases rows@.len() - i,
        {
            proof {
                let rest = rows@.subrange(i as int, rows@.len() as int);
                assert(rest[0] == rows@[i as int]);
                assert(rest.drop_first() =~= rows@.subrange(i + 1, rows@.len() as int));
                assert(rows@[i as int].info.node_ref.node < self@.lens().nodes);
            }
            match rows[i].info.death {
                Some(d) => {
                    let _ = self.death_set_cleared(d, false);
                },
                None => {},
            }
            i = i + 1;
        }
    }

    /// Gives up the reference of every row of a list.
    pub fn drop_refs(&mut self, rows: Vec<HandleEntry>)
        requires
            old(self)@.wf(),
            rows_valid(rows@, old(self)@.lens()),
        ensures
            final(self)@ == old(self)@.drop_refs(rows@),
            final(self)@.wf(),
            final(self)@.extends(old(self)@),
            final(self)@.stays_down(old(self)@),
            final(self)@.lens() == old(self)@.lens(),
    {
        let mut rows = rows;
        let ghost all = rows@;
        while rows.len() > 0
            invariant
                self@.wf(),
                self@.lens() == old(self)@.lens(),
                self@.extends(old(self)@),
                self@.stays_down(old(self)@),
                rows_valid(rows@, self@.lens()),
                self@.drop_refs(rows@) == old(self)@.drop_refs(all),
            decreases rows@.len(),
        {
            let ghost before = rows@;
            proof {
                assert(before[0].info.node_ref.node < self@.lens().nodes);
            }
            let row: HandleEntry = rows.remove(0);
            proof {
                assert(rows@ =~= before.drop_first());
                assert forall|k: int| 0 <= k < rows@.len() implies (
                #[trigger] rows@[k]).info.node_ref.node < self@.lens().nodes && (
                rows@[k].info.death.is_some() ==> rows@[k].info.death.unwrap()
                    < self@.lens().deaths) by {
                    assert(rows@[k] == before[k + 1]);
                }
            }
            self.drop_node_ref(row.info.node_ref);
        }
    }

    /// Cancels the one-way queue of every node of a list.
    pub fn cleanup_all_oneway(&mut self, ns: &Vec<NodeId>)
        requires
            old(self)@.wf(),
            ids_below(ns@, old(self)@.nodes.len() as int),
        ensures
            final(self)@ == old(self)@.cleanup_all_oneway(ns@),
            final(self)@.wf(),
            final(self)@.extends(old(self)@),
            final(self)@.stays_down(old(self)@),
            final(self)@.lens() == old(self)@.lens(),
    {
        let mut i: usize = 0;
        proof {
            assert(ns@.subrange(0, ns@.len() as int) =~= ns@);
        }
        while i < ns.len()
            invariant
                i <= ns@.len(),
                self@.wf(),
                self@.lens() == old(self)@.lens(),
                self@.extends(old(self)@),
                self@.stays_down(old(self)@),
                ids_below(ns@, self@.nodes.len() as int),
                self@.cleanup_all_oneway(ns@.subrange(i as int, ns@.len() as int)) == old(self)@.cleanup_all_oneway(ns@),
            decreases ns@.len() - i,
        {
            let n: NodeId = ns[i];
            proof {
                let rest = ns@.subrange(i as int, ns@.len() as int);
                assert(rest[0] == n);
                assert(rest.drop_first() =~= ns@.subrange(i + 1, ns@.len() as int));
            }
            self.cleanup_oneway(n);
            i = i + 1;
        }
    }

    /// Tells every subscription of a list that its node is dead.
    pub fn set_dead_all(&mut self, ds: &Vec<DeathId>)
        requires
            old(self)@.wf(),
            ids_below(ds@, old(self)@.deaths.len() as int),
        ensures
            final(self)@ == old(self)@.set_dead_all(ds@),
            final(self)@.wf(),
            final(self)@.extends(old(self)@),
            final(self)@.stays_down(old(self)@),
            final(self)@.lens() == old(self)@.lens(),
    {
        let mut i: usize = 0;
        proof {
            assert(ds@.subrange(0, ds@.len() as int) =~= ds@);
        }
        while i < ds.len()
            invariant
                i <= ds@.len(),
                self@.wf(),
                self@.lens() == old(self)@.lens(),
                self@.extends(old(self)@),
                self@.stays_down(old(self)@),
                ids_below(ds@, self@.deaths.len() as int),
                self@.set_dead_all(ds@.subrange(i as int, ds@.len() as int)) == old(self)@.set_dead_all(ds@),
            decreases ds@.len() - i,
        {
            let d: DeathId = ds[i];
            proof {
                let rest = ds@.subrange(i as int, ds@.len() as int);
                assert(rest[0] == d);
                assert(rest.drop_first() =~= ds@.subrange(i + 1, ds@.len() as int));
            }
            self.death_set_dead(d);
            i = i + 1;
        }
    }

    /// Reports the death of every node of a list to the node's subscribers.
    pub fn deliver_deaths(&mut self, ns: &Vec<NodeId>)
        requires
            old(self)@.wf(),
            ids_below(ns@, old(self)@.nodes.len() as int),
        ensures
            final(self)@ == old(self)@.deliver_deaths(ns@),
            final(self)@.wf(),
            final(self)@.extends(old(self)@),
            final(self)@.stays_down(old(self)@),
            final(self)@.lens() == old(self)@.lens(),
    {
        let mut i: usize = 0;
        proof {
            assert(ns@.subrange(0, ns@.len() as int) =~= ns@);
        }
        while i < ns.len()
            invariant
                i <= ns@.len(),
                self@.wf(),
                self@.lens() == old(self)@.lens(),
                self@.extends(old(self)@),
                self@.stays_down(old(self)@),
                ids_below(ns@, self@.nodes.len() as int),
                self@.deliver_deaths(ns@.subrange(i as int, ns@.len() as int)) == old(self)@.deliver_deaths(ns@),
            decreases ns@.len() - i,
        {
            let n: NodeId = ns[i];
            proof {
                let rest = ns@.subrange(i as int, ns@.len() as int);
                assert(rest[0] == n);
                assert(rest.drop_first() =~= ns@.subrange(i + 1, ns@.len() as int));
                let node = self@.nodes[n as int];
                assert(node.valid(self@.lens()));
                self@.lemma_with_node(n as int, NodeView { death_list: Seq::empty(), ..node });
            }
            let mut ds: Vec<DeathId> = Vec::new();
            core::mem::swap(&mut self.node_mut(n).inner.death_list, &mut ds);
            self.set_dead_all(&ds);
            i = i + 1;
        }
    }

    /// The addresses of the committed buffers of process `p`, in address order.
    pub fn committed_buffers(&self, p: ProcId) -> (r: Vec<usize>)
        requires
            p < self@.procs.len(),
        ensures
            r@ == self@.committed_buffers(p as int),
    {
        let mut out: Vec<usize> = Vec::new();
        match &self.procs[p].inner.mapping {
            None => {},
            Some(m) => {
                let mut i: usize = 0;
                while i < m.alloc.slots.len()
                    invariant
                        i <= m.alloc.slots@.len(),
                        out@ == committed_ptrs(m.alloc.slots@, m.address, i as int),
                    decreases m.alloc.slots@.len() - i,
                {
                    if matches!(m.alloc.slots[i].state, SlotState::Committed) {
                        let off: usize = m.alloc.slots[i].offset;
                        if off <= usize::MAX - m.address {
                            out.push(m.address + off);
                        }
                    }
                    i = i + 1;
                }
            },
        }
        out
    }

    /// Takes everything out of the work queue of process `p`.
    fn take_process_work(&mut self, p: ProcId) -> (items: Vec<WorkItem>)
        requires
            old(self)@.wf(),
            p < old(self)@.procs.len(),
        ensures
            items@ == old(self)@.procs[p as int].work,
            items_valid(items@, old(self)@.lens()),
            final(self)@ == old(self)@.with_proc(
                p as int,
                ProcessView { work: Seq::empty(), ..old(self)@.procs[p as int] },
            ),
            final(self)@.wf(),
            final(self)@.extends(old(self)@),
            final(self)@.stays_down(old(self)@),
            final(self)@.lens() == old(self)@.lens(),
    {
        let ghost pr = self@.procs[p as int];
        proof {
            assert(pr.valid(self@.lens()));
            self@.lemma_with_proc(p as int, ProcessView { work: Seq::empty(), ..pr });
        }
        let pm = self.proc_mut(p);
        let mut items: Vec<WorkItem> = Vec::new();
        while pm.inner.work.len() > 0
            invariant
                items@ + pm.inner.work@ == pr.work,
                pm@ == (ProcessView { work: pm.inner.work@, ..pr }),
            decreases pm.inner.work@.len(),
        {
            let ghost before = pm.inner.work@;
            let ghost got = items@;
            match pm.inner.work.pop_front() {
                Some(w) => {
                    items.push(w);
                    proof {
                        assert(items@ + pm.inner.work@ =~= got + before);
                    }
                },
                None => {},
            }
        }
        proof {
            assert(items@ =~= items@ + pm.inner.work@);
            assert(pm.inner.work@ =~= Seq::<WorkItem>::empty());
        }
        items
    }

    /// Marks process `p` dead, empties the manager slot if it holds it,
    /// takes it out of its context, cancels its queued work and frees its
    /// committed buffers.
    fn release_begin(&mut self, p: ProcId)
        requires
            old(self)@.wf(),
            p < old(self)@.procs.len(),
        ensures
            final(self)@ == old(self)@.release_begin(p as int),
            final(self)@.procs[p as int].is_dead,
            final(self)@.wf(),
            final(self)@.extends(old(self)@),
            final(self)@.stays_down(old(self)@),
            final(self)@.lens() == old(self)@.lens(),
    {
        assert(self@.procs[p as int].valid(self@.lens()));
        let is_manager: bool = self.procs[p].inner.is_manager;
        let c: ContextId = self.procs[p].ctx;
        proof {
            let pr = self@.procs[p as int];
            self@.lemma_with_proc(p as int, ProcessView { is_dead: true, ..pr });
        }
        self.proc_mut(p).inner.is_dead = true;
        if is_manager {
            self.unset_manager_node(c);
        }
        self.deregister_process(c, p);
        let items: Vec<WorkItem> = self.take_process_work(p);
        self.cancel_work(&items);
        let ptrs: Vec<usize> = self.committed_buffers(p);
        self.free_all(p, &ptrs);
    }

    /// Takes the arena and the handle, thread and node tables from
    /// process `p`, clears the subscriptions made through the handle
    /// table, and hands the three tables out.
    fn release_detach(&mut self, p: ProcId) -> (r: (Vec<HandleEntry>, Vec<ThreadId>, Vec<NodeId>))
        requires
            old(self)@.wf(),
            p < old(self)@.procs.len(),
        ensures
            final(self)@ == old(self)@.release_detach(p as int),
            final(self)@.procs[p as int].mapping.is_none(),
            final(self)@.procs[p as int].node_refs.len() == 0,
            final(self)@.procs[p as int].threads.len() == 0,
            final(self)@.procs[p as int].nodes.len() == 0,
            r.0@ == old(self)@.procs[p as int].node_refs,
            r.1@ == old(self)@.procs[p as int].threads,
            r.2@ == old(self)@.procs[p as int].nodes,
            rows_valid(r.0@, old(self)@.lens()),
            ids_below(r.1@, old(self)@.threads.len() as int),
            ids_below(r.2@, old(self)@.nodes.len() as int),
            final(self)@.wf(),
            final(self)@.extends(old(self)@),
            final(self)@.stays_down(old(self)@),
            final(self)@.lens() == old(self)@.lens(),
    {
        proof {
            let pr = self@.procs[p as int];
            assert(pr.valid(self@.lens()));
            self@.lemma_with_proc(
                p as int,
                ProcessView { mapping: None, node_refs: Seq::empty(), ..pr },
            );
        }
        let pm = self.proc_mut(p);
        pm.inner.mapping = None;
        let rows: Vec<HandleEntry> = pm.node_refs.take_all();
        let mut ts: Vec<ThreadId> = Vec::new();
        let mut ns: Vec<NodeId> = Vec::new();
        let ghost emptied = self@;
        self.clear_deaths(&rows);
        proof {
            let pr = self@.procs[p as int];
            assert(pr.valid(self@.lens()));
            self@.lemma_with_proc(
                p as int,
                ProcessView { threads: Seq::empty(), nodes: Seq::empty(), ..pr },
            );
        }
        let pm = self.proc_mut(p);
        core::mem::swap(&mut pm.inner.threads, &mut ts);
        core::mem::swap(&mut pm.inner.nodes, &mut ns);
        proof {
            emptied.lemma_clear_deaths_keeps(p as int, rows@);
            assert(ts@ == emptied.procs[p as int].threads);
            assert(ns@ == emptied.procs[p as int].nodes);
        }
        (rows, ts, ns)
    }

    /// Tears process `p` down, after its endpoint was closed. Afterwards
    /// the process is dead and has no arena, and its handle, thread and
    /// node tables are empty.
    pub fn deferred_release(&mut self, p: ProcId)
        requires
            old(self)@.wf(),
            p < old(self)@.procs.len(),
        ensures
            final(self)@ == old(self)@.deferred_release(p as int),
            final(self)@.procs[p as int].is_dead,
            final(self)@.procs[p as int].mapping.is_none(),
            final(self)@.procs[p as int].node_refs.len() == 0,
            final(self)@.procs[p as int].threads.len() == 0,
            final(self)@.procs[p as int].nodes.len() == 0,
            final(self)@.wf(),
            final(self)@.extends(old(self)@),
            final(self)@.lens() == old(self)@.lens(),
    {
        self.release_begin(p);
        let (rows, ts, ns) = self.release_detach(p);
        self.cleanup_all_oneway(&ns);
        self.release_threads(&ts);
        self.deliver_deaths(&ns);
        self.drop_refs(rows);
    }

    /// Runs the deferred work of process `p`.
    pub fn run_deferred(&mut self, p: ProcId)
        requires
            old(self)@.wf(),
            p < old(self)@.procs.len(),
        ensures
            final(self)@ == old(self)@.run_deferred(p as int),
            final(self)@.wf(),
            final(self)@.extends(old(self)@),
            final(self)@.lens() == old(self)@.lens(),
    {
        proof {
            let pr = self@.procs[p as int];
            assert(pr.valid(self@.lens()));
            self@.lemma_with_proc(p as int, ProcessView { defer_work: 0, ..pr });
        }
        let pm = self.proc_mut(p);
        let defer: u8 = pm.inner.defer_work;
        pm.inner.defer_work = 0;
        if defer & PROC_DEFER_FLUSH != 0 {
            self.deferred_flush(p);
        }
        if defer & PROC_DEFER_RELEASE != 0 {
            self.deferred_release(p);
        }
    }
}

} // verus!

//! Work queues: how work reaches a thread, directly or through the queue of
//! its process.

use vstd::prelude::*;
use crate::binder::{Binder, BinderView};
use crate::defs::{BinderError, ProcId, ThreadId, TxnId, WorkItem};
use crate::lists::{lemma_without_keeps_bound, remove_value, without};
use crate::process::ProcessView;

verus! {

impl BinderView {
    /// The engine after work was queued on a thread for delivery now.
    pub open spec fn thread_push_work(self, t: int, work: WorkItem) -> BinderView {
        self.with_thread(t, self.threads[t].push_work(work))
    }

    /// The engine after deferred work was queued on a thread.
    pub open spec fn thread_push_work_deferred(self, t: int, work: WorkItem) -> BinderView {
        self.with_thread(t, self.threads[t].push_work_deferred(work))
    }

    /// Whether the thread that has waited longest for work of process `p`
    /// takes work directly.
    pub open spec fn ready_thread_takes(self, p: int) -> bool {
        self.procs[p].ready_threads.len() > 0 && !self.threads[self.procs[p].ready_threads[0] as int].is_dead
    }

    /// What `push_work` answers: `Dead` when no waiting thread takes the
    /// work and the process is dead.
    pub open spec fn push_work_result(self, p: int) -> Result<(), BinderError> {
        if !self.ready_thread_takes(p) && self.procs[p].is_dead {
            Err(BinderError::Dead)
        } else {
            Ok(())
        }
    }

    /// The engine after `push_work`. The thread that has waited longest
    /// gets the work and stops waiting. If it cannot take work it goes to
    /// the back of the waiting list, and the work goes to the process queue
    /// as it does when no thread waits; a dead process queues nothing.
    pub open spec fn push_work(self, p: int, work: WorkItem) -> BinderView {
        let pr = self.procs[p];
        if self.ready_thread_takes(p) {
            let t = pr.ready_threads[0] as int;
            self.with_proc(
                p,
                ProcessView { ready_threads: pr.ready_threads.drop_first(), ..pr },
            ).thread_push_work(t, work)
        } else {
            let waiting = if pr.ready_threads.len() > 0 {
                pr.ready_threads.drop_first().push(pr.ready_threads[0])
            } else {
                pr.ready_threads
            };
            if pr.is_dead {
                self.with_proc(p, ProcessView { ready_threads: waiting, ..pr })
            } else {
                self.with_proc(
                    p,
                    ProcessView { ready_threads: waiting, work: pr.work.push(work), ..pr },
                )
            }
        }
    }

    /// What `thread_push_work_if_looper` answers.
    pub open spec fn thread_push_work_if_looper_result(self, t: int) -> Result<(), BinderError> {
        if self.threads[t].looper.is_looper() && !self.threads[t].is_dead {
            Ok(())
        } else {
            self.push_work_result(self.threads[t].process as int)
        }
    }

    /// The engine after work was queued on a thread if it is in the pool,
    /// on its process otherwise.
    pub open spec fn thread_push_work_if_looper(self, t: int, work: WorkItem) -> BinderView {
        if self.threads[t].looper.is_looper() && !self.threads[t].is_dead {
            self.thread_push_work(t, work)
        } else {
            self.push_work(self.threads[t].process as int, work)
        }
    }

    /// The oldest item of the process queue.
    pub open spec fn next_work(self, p: int) -> Option<WorkItem> {
        if self.procs[p].work.len() > 0 {
            Some(self.procs[p].work[0])
        } else {
            None
        }
    }

    /// The engine after `get_work`.
    pub open spec fn get_work(self, p: int) -> BinderView {
        let pr = self.procs[p];
        if pr.work.len() > 0 {
            self.with_proc(p, ProcessView { work: pr.work.drop_first(), ..pr })
        } else {
            self
        }
    }

    /// The engine after `get_work_or_register`: with nothing in the process
    /// queue the thread joins the threads that wait for work.
    pub open spec fn get_work_or_register(self, p: int, t: ThreadId) -> BinderView {
        let pr = self.procs[p];
        if pr.work.len() > 0 {
            self.get_work(p)
        } else {
            self.with_proc(p, ProcessView { ready_threads: pr.ready_threads.push(t), ..pr })
        }
    }

    /// The engine after a thread stopped waiting for work of its process.
    pub open spec fn unregister(self, p: int, t: ThreadId) -> BinderView {
        let pr = self.procs[p];
        self.with_proc(p, ProcessView { ready_threads: without(pr.ready_threads, t), ..pr })
    }

    /// Work that does not go to a waiting thread joins the process queue at
    /// the back, behind everything queued before: nothing overtakes it and
    /// it overtakes nothing.
    pub proof fn lemma_process_queue_fifo(self, p: int, a: WorkItem, b: WorkItem)
        requires
            0 <= p < self.procs.len(),
            self.procs[p].ready_threads.len() == 0,
            !self.procs[p].is_dead,
        ensures
            self.push_work(p, a).push_work(p, b).procs[p].work == self.procs[p].work.push(a).push(
                b,
            ),
            self.procs[p].work.len() == 0 ==> self.push_work(p, a).push_work(p, b).next_work(p)
                == Some(a) && self.push_work(p, a).push_work(p, b).get_work(p).next_work(p) == Some(
                b,
            ),
    {
        let s = self.push_work(p, a).push_work(p, b);
        if self.procs[p].work.len() == 0 {
            assert(s.procs[p].work[0] == a);
            assert(s.get_work(p).procs[p].work =~= seq![b]);
        }
    }
}

impl Binder {
    /// Queues work on a thread for delivery now. Returns whether the
    /// thread took it: a dead thread takes nothing.
    pub fn thread_push_work(&mut self, t: ThreadId, work: WorkItem) -> (accepted: bool)
        requires
            old(self)@.wf(),
            t < old(self)@.threads.len(),
            work.valid(old(self)@.lens()),
            old(self)@.item_for(work, old(self)@.threads[t as int].process as int),
        ensures
            final(self)@ == old(self)@.thread_push_work(t as int, work),
            final(self)@.wf(),
            final(self)@.extends(old(self)@),
            final(self)@.stays_down(old(self)@),
            final(self)@.same_oneway(old(self)@),
            final(self)@.lens() == old(self)@.lens(),
            accepted == !old(self)@.threads[t as int].is_dead,
    {
        proof {
            let thread = self@.threads[t as int];
            self@.lemma_routed();
            assert(self@.thread_routed(t as int));
            self@.lemma_items_for_ops(thread.work_list, thread.process as int, work);
            self@.lemma_with_thread(t as int, thread.push_work(work));
        }
        self.thread_mut(t).push_work(work)
    }

    /// Queues work on a thread without making it due for delivery.
    pub fn thread_push_work_deferred(&mut self, t: ThreadId, work: WorkItem)
        requires
            old(self)@.wf(),
            t < old(self)@.threads.len(),
            work.valid(old(self)@.lens()),
            old(self)@.item_for(work, old(self)@.threads[t as int].process as int),
        ensures
            final(self)@ == old(self)@.thread_push_work_deferred(t as int, work),
            final(self)@.wf(),
            final(self)@.extends(old(self)@),
            final(self)@.stays_down(old(self)@),
            final(self)@.same_oneway(old(self)@),
            final(self)@.lens() == old(self)@.lens(),
    {
        proof {
            let thread = self@.threads[t as int];
            self@.lemma_routed();
            assert(self@.thread_routed(t as int));
            self@.lemma_items_for_ops(thread.work_list, thread.process as int, work);
            self@.lemma_with_thread(t as int, thread.push_work_deferred(work));
        }
        self.thread_mut(t).push_work_deferred(work)
    }

    /// Hands work to a process: to the thread that has waited longest, or to
    /// the process queue when none waits or the one that does cannot take
    /// it. Fails with `Dead`, queueing nothing, when the work would go to
    /// the queue of a dead process.
    pub fn push_work(&mut self, p: ProcId, work: WorkItem) -> (r: Result<(), BinderError>)
        requires
            old(self)@.wf(),
            p < old(self)@.procs.len(),
            work.valid(old(self)@.lens()),
            old(self)@.item_for(work, p as int),
        ensures
            final(self)@ == old(self)@.push_work(p as int, work),
            r == old(self)@.push_work_result(p as int),
            final(self)@.wf(),
            final(self)@.extends(old(self)@),
            final(self)@.stays_down(old(self)@),
            final(self)@.same_oneway(old(self)@),
            final(self)@.lens() == old(self)@.lens(),
    {
        let ghost pr = self@.procs[p as int];
        let ghost l = self@.lens();
        assert(pr.valid(l));
        proof {
            self@.lemma_routed();
            assert(self@.proc_routed(p as int));
            self@.lemma_items_for_ops(pr.work, p as int, work);
            self@.lemma_threads_of_ops(pr.ready_threads, p as int, 0);
            if pr.ready_threads.len() > 0 {
                self@.lemma_threads_of_ops(
                    pr.ready_threads.drop_first(),
                    p as int,
                    pr.ready_threads[0],
                );
            }
        }
        if self.procs[p].inner.ready_threads.len() > 0 {
            let t: ThreadId = self.procs[p].inner.ready_threads[0];
            assert(pr.ready_threads[0] < l.threads);
            if !self.threads[t].is_dead {
                proof {
                    let pr2 = ProcessView { ready_threads: pr.ready_threads.drop_first(), ..pr };
                    assert(crate::defs::ids_below(pr2.ready_threads, l.threads)) by {
                        assert forall|i: int| 0 <= i < pr2.ready_threads.len() implies (
                        #[trigger] pr2.ready_threads[i]) < l.threads by {
                            assert(pr2.ready_threads[i] == pr.ready_threads[i + 1]);
                        }
                    }
                    self@.lemma_with_proc(p as int, pr2);
                }
                self.proc_mut(p).inner.ready_threads.remove(0);
                self.thread_push_work(t, work);
                return Ok(());
            }
            proof {
                let waiting = pr.ready_threads.drop_first().push(pr.ready_threads[0]);
                assert(crate::defs::ids_below(waiting, l.threads)) by {
                    assert forall|i: int| 0 <= i < waiting.len() implies (#[trigger] waiting[i])
                        < l.threads by {
                        if i < waiting.len() - 1 {
                            assert(waiting[i] == pr.ready_threads[i + 1]);
                        }
                    }
                }
                self@.lemma_with_proc(p as int, ProcessView { ready_threads: waiting, ..pr });
                self@.lemma_with_proc(
                    p as int,
                    ProcessView { ready_threads: waiting, work: pr.work.push(work), ..pr },
                );
            }
            let pm = self.proc_mut(p);
            let first: ThreadId = pm.inner.ready_threads.remove(0);
            pm.inner.ready_threads.push(first);
            proof {
                assert(self@.procs[p as int].ready_threads =~= pr.ready_threads.drop_first().push(
                    pr.ready_threads[0],
                ));
            }
        }
        if self.procs[p].inner.is_dead {
            proof {
                assert(self@.procs =~= old(self)@.push_work(p as int, work).procs);
            }
            return Err(BinderError::Dead);
        }
        proof {
            self@.lemma_with_proc(
                p as int,
                ProcessView { work: self@.procs[p as int].work.push(work), ..self@.procs[p as int] },
            );
        }
        self.proc_mut(p).inner.work.push_back(work);
        proof {
            assert(self@.procs =~= old(self)@.push_work(p as int, work).procs);
        }
        Ok(())
    }

    /// Hands a new transaction to a process that is not yet part of the
    /// transaction's call chain.
    pub fn push_new_transaction(&mut self, p: ProcId, transaction: TxnId) -> (r: Result<
        (),
        BinderError,
    >)
        requires
            old(self)@.wf(),
            p < old(self)@.procs.len(),
            transaction < old(self)@.txns.len(),
            old(self)@.txns[transaction as int].to == p,
        ensures
            final(self)@ == old(self)@.push_work(p as int, WorkItem::Transaction(transaction)),
            r == old(self)@.push_work_result(p as int),
            final(self)@.wf(),
            final(self)@.extends(old(self)@),
            final(self)@.lens() == old(self)@.lens(),
    {
        self.push_work(p, WorkItem::Transaction(transaction))
    }

    /// Queues work on a thread if it is a live member of the pool, and on
    /// its process otherwise.
    pub fn thread_push_work_if_looper(&mut self, t: ThreadId, work: WorkItem) -> (r: Result<
        (),
        BinderError,
    >)
        requires
            old(self)@.wf(),
            t < old(self)@.threads.len(),
            work.valid(old(self)@.lens()),
            old(self)@.item_for(work, old(self)@.threads[t as int].process as int),
        ensures
            final(self)@ == old(self)@.thread_push_work_if_looper(t as int, work),
            r == old(self)@.thread_push_work_if_looper_result(t as int),
            final(self)@.wf(),
            final(self)@.extends(old(self)@),
            final(self)@.lens() == old(self)@.lens(),
    {
        assert(self@.threads[t as int].valid(self@.lens()));
        if self.threads[t].is_looper() && !self.threads[t].is_dead {
            self.thread_push_work(t, work);
            Ok(())
        } else {
            let p: ProcId = self.threads[t].process;
            self.push_work(p, work)
        }
    }

    /// Takes the oldest item from the process queue.
    pub fn get_work(&mut self, p: ProcId) -> (r: Option<WorkItem>)
        requires
            old(self)@.wf(),
            p < old(self)@.procs.len(),
        ensures
            final(self)@ == old(self)@.get_work(p as int),
            r == old(self)@.next_work(p as int),
            r.is_some() ==> r.unwrap().valid(old(self)@.lens()) && old(self)@.item_for(
                r.unwrap(),
                p as int,
            ),
            final(self)@.wf(),
            final(self)@.extends(old(self)@),
            final(self)@.lens() == old(self)@.lens(),
    {
        let ghost pr = self@.procs[p as int];
        assert(pr.valid(self@.lens()));
        proof {
            self@.lemma_routed();
            assert(self@.proc_routed(p as int));
            self@.lemma_items_for_ops(pr.work, p as int, WorkItem::Return(0));
            if pr.work.len() > 0 {
                let pr2 = ProcessView { work: pr.work.drop_first(), ..pr };
                assert forall|i: int| 0 <= i < pr2.work.len() implies (#[trigger] pr2.work[i]).valid(
                    self@.lens(),
                ) by {
                    assert(pr2.work[i] == pr.work[i + 1]);
                }
                assert(pr.work[0].valid(self@.lens()));
                self@.lemma_with_proc(p as int, pr2);
            } else {
                assert(self@.with_proc(p as int, pr).procs =~= self@.procs);
            }
        }
        self.proc_mut(p).inner.work.pop_front()
    }

    /// Takes the oldest item from the process queue; with none there, the
    /// thread joins the threads that wait for work.
    pub fn get_work_or_register(&mut self, p: ProcId, t: ThreadId) -> (r: Option<WorkItem>)
        requires
            old(self)@.wf(),
            p < old(self)@.procs.len(),
            t < old(self)@.threads.len(),
            old(self)@.threads[t as int].process == p,
        ensures
            final(self)@ == old(self)@.get_work_or_register(p as int, t),
            r == old(self)@.next_work(p as int),
            r.is_some() ==> r.unwrap().valid(old(self)@.lens()) && old(self)@.item_for(
                r.unwrap(),
                p as int,
            ),
            final(self)@.wf(),
            final(self)@.extends(old(self)@),
            final(self)@.lens() == old(self)@.lens(),
    {
        if self.procs[p].inner.work.len() > 0 {
            return self.get_work(p);
        }
        let ghost pr = self@.procs[p as int];
        proof {
            assert(pr.valid(self@.lens()));
            self@.lemma_routed();
            assert(self@.proc_routed(p as int));
            self@.lemma_threads_of_ops(pr.ready_threads, p as int, t);
            self@.lemma_with_proc(
                p as int,
                ProcessView { ready_threads: pr.ready_threads.push(t), ..pr },
            );
        }
        self.proc_mut(p).inner.ready_threads.push(t);
        None
    }

    /// A thread stops waiting for work of its process.
    pub fn unregister(&mut self, p: ProcId, t: ThreadId)
        requires
            old(self)@.wf(),
            p < old(self)@.procs.len(),
        ensures
            final(self)@ == old(self)@.unregister(p as int, t),
            final(self)@.wf(),
            final(self)@.extends(old(self)@),
            final(self)@.stays_down(old(self)@),
            final(self)@.lens() == old(self)@.lens(),
    {
        let ghost pr = self@.procs[p as int];
        proof {
            assert(pr.valid(self@.lens()));
            self@.lemma_routed();
            assert(self@.proc_routed(p as int));
            self@.lemma_threads_of_ops(pr.ready_threads, p as int, t);
            lemma_without_keeps_bound(pr.ready_threads, t, self@.lens().threads);
            self@.lemma_with_proc(
                p as int,
                ProcessView { ready_threads: without(pr.ready_threads, t), ..pr },
            );
        }
        remove_value(&mut self.proc_mut(p).inner.ready_threads, t);
    }
}

} // verus!

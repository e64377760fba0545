//! Death notifications: how a process subscribes to the death of a node's
//! owner, how the subscription ends, and how handles are given up.

use vstd::prelude::*;
use crate::binder::{Binder, BinderView};
use crate::defs::{
    lemma_ids_below_ops, BinderError, ContextId, DeathId, NodeId, ProcId, ThreadId, WorkItem,
    BR_ERROR,
};
use crate::lists::{lemma_without_keeps_bound, remove_value, without};
use crate::node::{NodeDeath, NodeDeathInner, NodeRef, NodeView, RefUpdate};
use crate::node_refs::{
    handle_pos, has_handle, lemma_rows_keep_wf, row_updated, with_death, HandleEntry,
    NodeRefInfo,
};
use crate::process::ProcessView;
use crate::thread::ThreadView;

verus! {

impl BinderView {
    /// The engine after `death_set_cleared`: the subscription is cleared,
    /// and aborted if asked; unless its node is dead already, it leaves the
    /// node's list of subscribers.
    pub open spec fn death_set_cleared(self, d: int, abort: bool) -> BinderView {
        let de = self.deaths[d];
        let s1 = self.with_death(d, NodeDeath { inner: de.inner.cleared_spec(abort), ..de });
        if de.inner.clear_outcome().needs_removal {
            let node = self.nodes[de.node as int];
            s1.with_node(
                de.node as int,
                NodeView { death_list: without(node.death_list, d as usize), ..node },
            )
        } else {
            s1
        }
    }

    /// The engine after `death_set_dead`: unless the subscription is
    /// cleared, it is marked dead and queued on the subscriber.
    pub open spec fn death_set_dead(self, d: int) -> BinderView {
        let de = self.deaths[d];
        let s1 = self.with_death(d, NodeDeath { inner: de.inner.dead_spec(), ..de });
        if !de.inner.cleared {
            s1.push_work(de.process as int, WorkItem::NodeDeath(d as usize))
        } else {
            s1
        }
    }

    /// The engine after `death_set_notification_done`: the acknowledgement
    /// is recorded; a subscription that was cleared before is queued on
    /// the acknowledging thread, so that the end of the subscription is confirmed.
    pub open spec fn death_set_notification_done(self, d: int, t: int) -> BinderView {
        let de = self.deaths[d];
        let s1 = self.with_death(
            d,
            NodeDeath { inner: NodeDeathInner { notification_done: true, ..de.inner }, ..de },
        );
        if de.inner.cleared {
            s1.thread_push_work_if_looper(t, WorkItem::NodeDeath(d as usize))
        } else {
            s1
        }
    }

    /// What `request_death` answers: `NoMem` when no memory could be
    /// reserved for the subscription, `BadArg` for an unknown handle.
    pub open spec fn request_death_result(self, p: int, handle: u32, reserved: bool) -> Result<
        (),
        BinderError,
    > {
        if !reserved {
            Err(BinderError::NoMem)
        } else if !has_handle(self.procs[p].node_refs, handle) {
            Err(BinderError::BadArg)
        } else {
            Ok(())
        }
    }

    /// The engine after `request_death`. Without memory, `BR_ERROR` goes
    /// into the caller's slot for return commands. A handle that has a
    /// subscription keeps it. A new subscription joins the node's list of
    /// subscribers, or, if the node's owner is dead already, goes to the
    /// subscriber's queue at once.
    pub open spec fn request_death(self, p: int, handle: u32, cookie: usize, t: int, reserved: bool) -> BinderView {
        let refs = self.procs[p].node_refs;
        let i = handle_pos(refs, handle, 0);
        if !reserved {
            self.with_thread(t, ThreadView { return_work: Some(BR_ERROR), ..self.threads[t] })
        } else if !has_handle(refs, handle) || refs[i].info.death.is_some() {
            self
        } else {
            let d = self.deaths.len() as usize;
            let n = refs[i].info.node_ref.node;
            let s1 = self.push_death(
                NodeDeath {
                    node: n,
                    process: p as usize,
                    cookie,
                    inner: NodeDeathInner {
                        dead: false,
                        cleared: false,
                        notification_done: false,
                        aborted: false,
                    },
                },
            ).with_proc(p, ProcessView { node_refs: with_death(refs, i, Some(d)), ..self.procs[p] });
            if self.procs[self.nodes[n as int].owner as int].is_dead {
                s1.push_work(p, WorkItem::NodeDeath(d))
            } else {
                s1.with_node(
                    n as int,
                    NodeView {
                        death_list: self.nodes[n as int].death_list.push(d),
                        ..self.nodes[n as int]
                    },
                )
            }
        }
    }

    /// What `clear_death` answers: `BadArg` unless the handle has a
    /// subscription with this cookie.
    pub open spec fn clear_death_result(self, p: int, handle: u32, cookie: usize) -> Result<
        (),
        BinderError,
    > {
        let refs = self.procs[p].node_refs;
        let i = handle_pos(refs, handle, 0);
        if has_handle(refs, handle) && refs[i].info.death.is_some()
            && self.deaths[refs[i].info.death.unwrap() as int].cookie == cookie {
            Ok(())
        } else {
            Err(BinderError::BadArg)
        }
    }

    /// The engine after `clear_death`: the handle loses its subscription,
    /// the subscription is cleared and, if there is something to confirm,
    /// queued on the calling thread.
    pub open spec fn clear_death(self, p: int, handle: u32, cookie: usize, t: int) -> BinderView {
        let refs = self.procs[p].node_refs;
        let i = handle_pos(refs, handle, 0);
        if self.clear_death_result(p, handle, cookie).is_ok() {
            let d = refs[i].info.death.unwrap();
            let s1 = self.with_proc(
                p,
                ProcessView { node_refs: with_death(refs, i, None), ..self.procs[p] },
            );
            let s2 = s1.death_set_cleared(d as int, false);
            if self.deaths[d as int].inner.clear_outcome().needs_queueing {
                s2.thread_push_work_if_looper(t, WorkItem::NodeDeath(d))
            } else {
                s2
            }
        } else {
            self
        }
    }

    /// Place in the delivered list of process `p`, from `from` on, of the
    /// first subscription with this cookie; the length of the list if there is none.
    pub open spec fn delivered_pos(self, p: int, cookie: usize, from: int) -> int
        decreases self.procs[p].delivered_deaths.len() - from,
    {
        let ds = self.procs[p].delivered_deaths;
        if from < 0 || from >= ds.len() {
            ds.len() as int
        } else if self.deaths[ds[from] as int].cookie == cookie {
            from
        } else {
            self.delivered_pos(p, cookie, from + 1)
        }
    }

    /// The engine after `dead_binder_done`: the delivered notification
    /// with this cookie, if there is one, leaves the delivered list and is
    /// marked as acknowledged.
    pub open spec fn dead_binder_done(self, p: int, cookie: usize, t: int) -> BinderView {
        let ds = self.procs[p].delivered_deaths;
        let i = self.delivered_pos(p, cookie, 0);
        if i < ds.len() {
            self.with_proc(
                p,
                ProcessView { delivered_deaths: ds.remove(i), ..self.procs[p] },
            ).death_set_notification_done(ds[i] as int, t)
        } else {
            self
        }
    }

    /// The engine after a subscription left the delivered list of process `p`.
    pub open spec fn remove_from_delivered_deaths(self, p: int, d: DeathId) -> BinderView {
        self.with_proc(
            p,
            ProcessView {
                delivered_deaths: without(self.procs[p].delivered_deaths, d),
                ..self.procs[p]
            },
        )
    }

    /// Whether `update_ref` imports the context manager: an increment on
    /// handle 0 while a manager is installed that can be cloned.
    pub open spec fn update_ref_imports_manager(self, p: int, handle: u32, inc: bool, strong: bool) -> bool {
        inc && handle == 0 && self.get_manager_node_result(self.procs[p].ctx as int, strong).is_ok()
    }

    /// What `update_ref` answers: `BadArg` when the manager tries to
    /// import itself, success otherwise.
    pub open spec fn update_ref_result(self, p: int, handle: u32, inc: bool, strong: bool) -> Result<
        (),
        BinderError,
    > {
        if self.update_ref_imports_manager(p, handle, inc, strong) && self.nodes[self.get_manager_node_result(
            self.procs[p].ctx as int,
            strong,
        ).unwrap().node as int].owner == p {
            Err(BinderError::BadArg)
        } else {
            Ok(())
        }
    }

    /// The engine after the reference under `handle` was updated, given
    /// that the handle has row `i`.
    pub open spec fn update_row(self, p: int, i: int, inc: bool, strong: bool) -> BinderView {
        let refs = self.procs[p].node_refs;
        let u = refs[i].info.node_ref.update_outcome(inc, strong);
        let n = refs[i].info.node_ref.node;
        let s2 = self.with_proc(
            p,
            ProcessView { node_refs: row_updated(refs, i, inc, strong), ..self.procs[p] },
        ).apply_node_update(n as int, u.node_update);
        if u.remove {
            s2.drop_row(p, i, refs[i].info.death, refs[i].info.node_ref.updated(inc, strong))
        } else {
            s2
        }
    }

    /// The engine after row `i` left the handle table of process `p`: the
    /// subscription `death` made through it is aborted and taken off the
    /// list of delivered deaths, and what the reference `node_ref` of the
    /// row still contributed to its node is given up.
    pub open spec fn drop_row(self, p: int, i: int, death: Option<DeathId>, node_ref: NodeRef) -> BinderView {
        let s3 = match death {
            Some(d) => self.death_set_cleared(d as int, true).remove_from_delivered_deaths(p, d),
            None => self,
        };
        s3.with_proc(
            p,
            ProcessView { node_refs: s3.procs[p].node_refs.remove(i), ..s3.procs[p] },
        ).drop_node_ref(node_ref)
    }

    /// The engine after `update_ref`.
    ///
    /// An increment on handle 0 imports the context manager under handle 0,
    /// unless the caller owns the manager. Otherwise the reference under
    /// the handle, if there is one, gains or loses one count; when its last
    /// count goes, its subscription is aborted, its row removed and what it
    /// still contributed to the node given up.
    pub open spec fn update_ref(self, p: int, handle: u32, inc: bool, strong: bool) -> BinderView {
        let c = self.procs[p].ctx as int;
        if self.update_ref_imports_manager(p, handle, inc, strong) {
            let r = self.get_manager_node_result(c, strong).unwrap();
            let s1 = self.get_manager_node(c, strong);
            if self.nodes[r.node as int].owner == p {
                s1.drop_node_ref(r)
            } else {
                s1.insert_or_update_handle(p, r, true)
            }
        } else if has_handle(self.procs[p].node_refs, handle) {
            self.update_row(p, handle_pos(self.procs[p].node_refs, handle, 0), inc, strong)
        } else {
            self
        }
    }

    /// A search of the delivered list gives the length of the list or the
    /// place of the first subscription with the cookie.
    pub proof fn lemma_delivered_pos(self, p: int, cookie: usize, from: int)
        requires
            0 <= from <= self.procs[p].delivered_deaths.len(),
        ensures
            from <= self.delivered_pos(p, cookie, from) <= self.procs[p].delivered_deaths.len(),
        decreases self.procs[p].delivered_deaths.len() - from,
    {
        let ds = self.procs[p].delivered_deaths;
        if from < ds.len() && self.deaths[ds[from] as int].cookie != cookie {
            self.lemma_delivered_pos(p, cookie, from + 1);
        }
    }
}

impl Binder {
    /// Ends a subscription; with `abort` it is also silenced. Unless the
    /// node is dead already, the subscription leaves the node's list.
    /// Returns whether the subscription is to be queued for delivery.
    pub fn death_set_cleared(&mut self, d: DeathId, abort: bool) -> (needs_queueing: bool)
        requires
            old(self)@.wf(),
            d < old(self)@.deaths.len(),
        ensures
            final(self)@ == old(self)@.death_set_cleared(d as int, abort),
            needs_queueing == old(self)@.deaths[d as int].inner.clear_outcome().needs_queueing,
            final(self)@.wf(),
            final(self)@.extends(old(self)@),
            final(self)@.stays_down(old(self)@),
            final(self)@.same_oneway(old(self)@),
            final(self)@.lens() == old(self)@.lens(),
    {
        let ghost de = self@.deaths[d as int];
        proof {
            assert(de.valid(self@.lens()));
            self@.lemma_with_death(d as int, NodeDeath { inner: de.inner.cleared_spec(abort), ..de });
        }
        let outcome = self.death_mut(d).inner.set_cleared(abort);
        if outcome.needs_removal {
            let n: NodeId = self.deaths[d].node;
            proof {
                let node = self@.nodes[n as int];
                assert(node.valid(self@.lens()));
                lemma_without_keeps_bound(node.death_list, d, self@.lens().deaths);
                self@.lemma_with_node(
                    n as int,
                    NodeView { death_list: without(node.death_list, d), ..node },
                );
            }
            self.node_mut(n).remove_death(d);
        }
        outcome.needs_queueing
    }

    /// The owner of the subscription's node died: unless the subscription
    /// is cleared, it is marked dead and queued on the subscriber.
    pub fn death_set_dead(&mut self, d: DeathId)
        requires
            old(self)@.wf(),
            d < old(self)@.deaths.len(),
        ensures
            final(self)@ == old(self)@.death_set_dead(d as int),
            final(self)@.wf(),
            final(self)@.extends(old(self)@),
            final(self)@.stays_down(old(self)@),
            final(self)@.lens() == old(self)@.lens(),
    {
        let ghost de = self@.deaths[d as int];
        proof {
            assert(de.valid(self@.lens()));
            self@.lemma_with_death(d as int, NodeDeath { inner: de.inner.dead_spec(), ..de });
        }
        let needs_queueing: bool = self.death_mut(d).inner.set_dead();
        if needs_queueing {
            let p: ProcId = self.deaths[d].process;
            let _ = self.push_work(p, WorkItem::NodeDeath(d));
        }
    }

    /// Records that the subscriber acknowledged the death. A subscription
    /// that was cleared before is queued on the acknowledging thread.
    pub fn death_set_notification_done(&mut self, d: DeathId, t: ThreadId)
        requires
            old(self)@.wf(),
            d < old(self)@.deaths.len(),
            t < old(self)@.threads.len(),
        ensures
            final(self)@ == old(self)@.death_set_notification_done(d as int, t as int),
            final(self)@.wf(),
            final(self)@.extends(old(self)@),
            final(self)@.lens() == old(self)@.lens(),
    {
        let ghost de = self@.deaths[d as int];
        proof {
            assert(de.valid(self@.lens()));
            self@.lemma_with_death(
                d as int,
                NodeDeath { inner: NodeDeathInner { notification_done: true, ..de.inner }, ..de },
            );
        }
        let needs_queueing: bool = self.death_mut(d).inner.set_notification_done();
        if needs_queueing {
            let _ = self.thread_push_work_if_looper(t, WorkItem::NodeDeath(d));
        }
    }

    /// Subscribes process `p` to the death of the owner of the node behind
    /// `handle`. `reserved` says whether memory for the subscription could
    /// be reserved; if not, `BR_ERROR` is scheduled on the calling thread
    /// before the call fails with `NoMem`.
    pub fn request_death(
        &mut self,
        p: ProcId,
        handle: u32,
        cookie: usize,
        t: ThreadId,
        reserved: bool,
    ) -> (r: Result<(), BinderError>)
        requires
            old(self)@.wf(),
            p < old(self)@.procs.len(),
            t < old(self)@.threads.len(),
        ensures
            final(self)@ == old(self)@.request_death(p as int, handle, cookie, t as int, reserved),
            r == old(self)@.request_death_result(p as int, handle, reserved),
            final(self)@.wf(),
            final(self)@.extends(old(self)@),
            old(self)@.lens().le(final(self)@.lens()),
    {
        if !reserved {
            proof {
                let th = self@.threads[t as int];
                assert(th.valid(self@.lens()));
                self@.lemma_with_thread(t as int, ThreadView { return_work: Some(BR_ERROR), ..th });
            }
            self.thread_mut(t).push_return_work(BR_ERROR);
            return Err(BinderError::NoMem);
        }
        assert(self@.procs[p as int].valid(self@.lens()));
        let i: usize = match self.procs[p].node_refs.find_handle(handle) {
            Some(i) => i,
            None => {
                return Err(BinderError::BadArg);
            },
        };
        if self.procs[p].node_refs.entries[i].info.death.is_some() {
            return Ok(());
        }
        let n: NodeId = self.procs[p].node_refs.entries[i].info.node_ref.node;
        assert(self@.procs[p as int].node_refs[i as int].info.node_ref.node < self@.nodes.len());
        let d: DeathId = self.push_death(NodeDeath::new(n, p, cookie));
        proof {
            let pr = self@.procs[p as int];
            assert(pr.valid(self@.lens()));
            lemma_rows_keep_wf(
                pr.node_refs,
                i as int,
                HandleEntry {
                    handle: pr.node_refs[i as int].handle,
                    info: NodeRefInfo { node_ref: pr.node_refs[i as int].info.node_ref, death: Some(d) },
                },
                self@.lens(),
            );
            self@.lemma_with_proc(
                p as int,
                ProcessView { node_refs: with_death(pr.node_refs, i as int, Some(d)), ..pr },
            );
        }
        self.proc_mut(p).node_refs.replace_death(i, Some(d));
        let ghost filed = old(self)@.push_death(
            NodeDeath {
                node: n,
                process: p,
                cookie,
                inner: NodeDeathInner {
                    dead: false,
                    cleared: false,
                    notification_done: false,
                    aborted: false,
                },
            },
        ).with_proc(
            p as int,
            ProcessView {
                node_refs: with_death(old(self)@.procs[p as int].node_refs, i as int, Some(d)),
                ..old(self)@.procs[p as int]
            },
        );
        assert(self@ == filed);
        assert(self@.nodes[n as int].valid(self@.lens()));
        let owner: ProcId = self.nodes[n].owner;
        assert(owner == old(self)@.nodes[n as int].owner);
        assert(self@.procs[owner as int].is_dead == old(self)@.procs[owner as int].is_dead);
        if self.procs[owner].inner.is_dead {
            let _ = self.push_work(p, WorkItem::NodeDeath(d));
            assert(self@ == filed.push_work(p as int, WorkItem::NodeDeath(d)));
        } else {
            proof {
                let node = self@.nodes[n as int];
                lemma_ids_below_ops(node.death_list, self@.lens().deaths, d, 0);
                self@.lemma_with_node(
                    n as int,
                    NodeView { death_list: node.death_list.push(d), ..node },
                );
            }
            self.node_mut(n).add_death(d);
        }
        Ok(())
    }

    /// Ends the subscription that process `p` made through `handle`. Fails
    /// with `BadArg` unless the handle has a subscription with this cookie.
    pub fn clear_death(&mut self, p: ProcId, handle: u32, cookie: usize, t: ThreadId) -> (r: Result<
        (),
        BinderError,
    >)
        requires
            old(self)@.wf(),
            p < old(self)@.procs.len(),
            t < old(self)@.threads.len(),
        ensures
            final(self)@ == old(self)@.clear_death(p as int, handle, cookie, t as int),
            r == old(self)@.clear_death_result(p as int, handle, cookie),
            final(self)@.wf(),
            final(self)@.extends(old(self)@),
            final(self)@.lens() == old(self)@.lens(),
    {
        assert(self@.procs[p as int].valid(self@.lens()));
        let i: usize = match self.procs[p].node_refs.find_handle(handle) {
            Some(i) => i,
            None => {
                return Err(BinderError::BadArg);
            },
        };
        let d: DeathId = match self.procs[p].node_refs.entries[i].info.death {
            Some(d) => d,
            None => {
                return Err(BinderError::BadArg);
            },
        };
        assert(self@.procs[p as int].node_refs[i as int].info.death.unwrap() < self@.deaths.len());
        if self.deaths[d].cookie != cookie {
            return Err(BinderError::BadArg);
        }
        proof {
            let pr = self@.procs[p as int];
            lemma_rows_keep_wf(
                pr.node_refs,
                i as int,
                HandleEntry {
                    handle: pr.node_refs[i as int].handle,
                    info: NodeRefInfo { node_ref: pr.node_refs[i as int].info.node_ref, death: None },
                },
                self@.lens(),
            );
            self@.lemma_with_proc(
                p as int,
                ProcessView { node_refs: with_death(pr.node_refs, i as int, None), ..pr },
            );
        }
        self.proc_mut(p).node_refs.replace_death(i, None);
        if self.death_set_cleared(d, false) {
            let _ = self.thread_push_work_if_looper(t, WorkItem::NodeDeath(d));
        }
        Ok(())
    }

    /// Takes a subscription off the delivered list of process `p`.
    pub fn remove_from_delivered_deaths(&mut self, p: ProcId, d: DeathId)
        requires
            old(self)@.wf(),
            p < old(self)@.procs.len(),
        ensures
            final(self)@ == old(self)@.remove_from_delivered_deaths(p as int, d),
            final(self)@.wf(),
            final(self)@.extends(old(self)@),
            final(self)@.stays_down(old(self)@),
            final(self)@.same_oneway(old(self)@),
            final(self)@.lens() == old(self)@.lens(),
    {
        proof {
            let pr = self@.procs[p as int];
            assert(pr.valid(self@.lens()));
            lemma_without_keeps_bound(pr.delivered_deaths, d, self@.lens().deaths);
            self@.lemma_with_proc(
                p as int,
                ProcessView { delivered_deaths: without(pr.delivered_deaths, d), ..pr },
            );
        }
        remove_value(&mut self.proc_mut(p).inner.delivered_deaths, d);
    }

    /// Finds the delivered notification of process `p` with this cookie.
    pub fn find_delivered_death(&self, p: ProcId, cookie: usize) -> (r: Option<usize>)
        requires
            self@.wf(),
            p < self@.procs.len(),
        ensures
            r.is_some() == (self@.delivered_pos(p as int, cookie, 0)
                < self@.procs[p as int].delivered_deaths.len()),
            r.is_some() ==> r.unwrap() == self@.delivered_pos(p as int, cookie, 0),
    {
        let mut i: usize = 0;
        proof {
            self@.lemma_delivered_pos(p as int, cookie, 0);
        }
        while i < self.procs[p].inner.delivered_deaths.len()
            invariant
                self@.wf(),
                p < self@.procs.len(),
                i <= self@.procs[p as int].delivered_deaths.len(),
                self@.delivered_pos(p as int, cookie, 0) == self@.delivered_pos(
                    p as int,
                    cookie,
                    i as int,
                ),
            decreases self@.procs[p as int].delivered_deaths.len() - i,
        {
            assert(self@.procs[p as int].valid(self@.lens()));
            let d: DeathId = self.procs[p].inner.delivered_deaths[i];
            assert(self@.procs[p as int].delivered_deaths[i as int] < self@.deaths.len());
            if self.deaths[d].cookie == cookie {
                return Some(i);
            }
            i = i + 1;
        }
        None
    }

    /// The subscriber acknowledges the death notification with this cookie.
    pub fn dead_binder_done(&mut self, p: ProcId, cookie: usize, t: ThreadId)
        requires
            old(self)@.wf(),
            p < old(self)@.procs.len(),
            t < old(self)@.threads.len(),
        ensures
            final(self)@ == old(self)@.dead_binder_done(p as int, cookie, t as int),
            final(self)@.wf(),
            final(self)@.extends(old(self)@),
            final(self)@.lens() == old(self)@.lens(),
    {
        match self.find_delivered_death(p, cookie) {
            Some(i) => {
                proof {
                    let pr = self@.procs[p as int];
                    assert(pr.valid(self@.lens()));
                    lemma_ids_below_ops(pr.delivered_deaths, self@.lens().deaths, 0, i as int);
                    self@.lemma_with_proc(
                        p as int,
                        ProcessView { delivered_deaths: pr.delivered_deaths.remove(i as int), ..pr },
                    );
                }
                let d: DeathId = self.proc_mut(p).inner.delivered_deaths.remove(i);
                self.death_set_notification_done(d, t);
            },
            None => {},
        }
    }

    /// Updates the reference in row `i` of the handle table of process `p`.
    fn update_row(&mut self, p: ProcId, i: usize, inc: bool, strong: bool)
        requires
            old(self)@.wf(),
            p < old(self)@.procs.len(),
            i < old(self)@.procs[p as int].node_refs.len(),
        ensures
            final(self)@ == old(self)@.update_row(p as int, i as int, inc, strong),
            final(self)@.wf(),
            final(self)@.extends(old(self)@),
            final(self)@.stays_down(old(self)@),
            final(self)@.same_oneway(old(self)@),
            final(self)@.lens() == old(self)@.lens(),
    {
        let ghost refs = self@.procs[p as int].node_refs;
        let ghost l = self@.lens();
        proof {
            let pr = self@.procs[p as int];
            assert(pr.valid(l));
            lemma_rows_keep_wf(
                refs,
                i as int,
                HandleEntry {
                    handle: refs[i as int].handle,
                    info: NodeRefInfo {
                        node_ref: refs[i as int].info.node_ref.updated(inc, strong),
                        death: refs[i as int].info.death,
                    },
                },
                l,
            );
            self@.lemma_with_proc(
                p as int,
                ProcessView { node_refs: row_updated(refs, i as int, inc, strong), ..pr },
            );
        }
        let n: NodeId = self.procs[p].node_refs.entries[i].info.node_ref.node;
        assert(refs[i as int].info.node_ref.node < l.nodes);
        let u: RefUpdate = self.proc_mut(p).node_refs.update_row(i, inc, strong);
        self.apply_node_update(n, u.node_update);
        if u.remove {
            assert(self@.procs[p as int].node_refs == row_updated(refs, i as int, inc, strong));
            self.drop_row(p, i);
        }
    }

    /// Takes row `i` out of the handle table of process `p`, aborts the
    /// subscription made through it and gives its reference up.
    fn drop_row(&mut self, p: ProcId, i: usize)
        requires
            old(self)@.wf(),
            p < old(self)@.procs.len(),
            i < old(self)@.procs[p as int].node_refs.len(),
        ensures
            final(self)@ == old(self)@.drop_row(
                p as int,
                i as int,
                old(self)@.procs[p as int].node_refs[i as int].info.death,
                old(self)@.procs[p as int].node_refs[i as int].info.node_ref,
            ),
            final(self)@.wf(),
            final(self)@.extends(old(self)@),
            final(self)@.stays_down(old(self)@),
            final(self)@.same_oneway(old(self)@),
            final(self)@.lens() == old(self)@.lens(),
    {
        let ghost refs = self@.procs[p as int].node_refs;
        let ghost l = self@.lens();
        assert(self@.procs[p as int].valid(l));
        let death: Option<DeathId> = self.procs[p].node_refs.entries[i].info.death;
        match death {
            Some(d) => {
                assert(refs[i as int].info.death.unwrap() < l.deaths);
                let _ = self.death_set_cleared(d, true);
                self.remove_from_delivered_deaths(p, d);
            },
            None => {},
        }
        assert(self@.procs[p as int].node_refs == refs);
        proof {
            let pr = self@.procs[p as int];
            assert(pr.valid(self@.lens()));
            lemma_rows_keep_wf(pr.node_refs, i as int, pr.node_refs[i as int], l);
            self@.lemma_with_proc(
                p as int,
                ProcessView { node_refs: pr.node_refs.remove(i as int), ..pr },
            );
        }
        let row: HandleEntry = self.proc_mut(p).node_refs.remove_row(i);
        self.drop_node_ref(row.info.node_ref);
    }

    /// Adds one to, or takes one from, the strong or weak count that
    /// userspace of process `p` holds on `handle`. Fails with `BadArg`
    /// when the context manager tries to import itself.
    pub fn update_ref(&mut self, p: ProcId, handle: u32, inc: bool, strong: bool) -> (r: Result<
        (),
        BinderError,
    >)
        requires
            old(self)@.wf(),
            p < old(self)@.procs.len(),
        ensures
            final(self)@ == old(self)@.update_ref(p as int, handle, inc, strong),
            r == old(self)@.update_ref_result(p as int, handle, inc, strong),
            final(self)@.wf(),
            final(self)@.extends(old(self)@),
            final(self)@.same_oneway(old(self)@),
            !inc ==> final(self)@.stays_down(old(self)@),
            final(self)@.lens() == old(self)@.lens(),
    {
        assert(self@.procs[p as int].valid(self@.lens()));
        if inc && handle == 0 {
            let c: ContextId = self.procs[p].ctx;
            match self.get_manager_node(c, strong) {
                Ok(node_ref) => {
                    if self.nodes[node_ref.node].owner == p {
                        self.drop_node_ref(node_ref);
                        return Err(BinderError::BadArg);
                    }
                    let _ = self.insert_or_update_handle(p, node_ref, true);
                    return Ok(());
                },
                Err(_) => {},
            }
        }
        match self.procs[p].node_refs.find_handle(handle) {
            Some(i) => {
                self.update_row(p, i, inc, strong);
            },
            None => {},
        }
        Ok(())
    }
}

} // verus!

//! The life of contexts, processes and threads: how they come into being,
//! how a process becomes the manager of its context, and how deferred work
//! is recorded.

use vstd::prelude::*;
use crate::binder::{Binder, BinderView};
use crate::context::{Context, ContextView};
use crate::defs::{
    lemma_ids_below_ops, BinderError, ContextId, NodeId, ProcId, ThreadId, WorkItem,
    PROC_DEFER_FLUSH, PROC_DEFER_RELEASE,
};
use crate::lists::{lemma_position, lemma_without_idempotent, lemma_without_keeps_bound, position, remove_value, without};
use crate::node::{NodeDelivery, NodeRef};
use crate::objects::FlatBinderObject;
use crate::process::{Process, ProcessView};
use crate::thread::{Thread, ThreadView};

verus! {

/// Whether two byte strings are equal.
pub fn bytes_eq(a: &Vec<u8>, b: &Vec<u8>) -> (r: bool)
    ensures
        r == (a@ == b@),
{
    if a.len() != b.len() {
        return false;
    }
    let mut i: usize = 0;
    while i < a.len()
        invariant
            i <= a@.len(),
            a@.len() == b@.len(),
            forall|j: int| 0 <= j < i ==> a@[j] == b@[j],
        decreases a@.len() - i,
    {
        if a[i] != b[i] {
            return false;
        }
        i = i + 1;
    }
    proof {
        assert(a@ =~= b@);
    }
    true
}

impl BinderView {
    /// The engine after a context was created: it is in the registry, has
    /// no manager and no processes.
    pub open spec fn create_context(self, name: Seq<u8>) -> BinderView {
        let s1 = self.push_context(ContextView::fresh(name));
        BinderView { context_list: self.context_list.push(self.contexts.len() as usize), ..s1 }
    }

    /// The engine after a context left the registry.
    pub open spec fn deregister_context(self, c: ContextId) -> BinderView {
        BinderView { context_list: without(self.context_list, c), ..self }
    }

    /// The engine after process `p` was entered in the members of context
    /// `c`. A process of another context is not entered.
    pub open spec fn register_process(self, c: int, p: ProcId) -> BinderView {
        if self.procs[p as int].ctx == c {
            self.with_context(
                c,
                ContextView { all_procs: self.contexts[c].all_procs.push(p), ..self.contexts[c] },
            )
        } else {
            self
        }
    }

    /// The engine after process `p` was taken out of the members of
    /// context `c`. A process of another context is left alone.
    pub open spec fn deregister_process(self, c: int, p: ProcId) -> BinderView {
        if self.procs[p as int].ctx == c {
            self.with_context(
                c,
                ContextView {
                    all_procs: without(self.contexts[c].all_procs, p),
                    ..self.contexts[c]
                },
            )
        } else {
            self
        }
    }

    /// The engine after a process opened the endpoint of context `c`.
    pub open spec fn open(self, c: int, pid: i32, euid: u32) -> BinderView {
        self.push_proc(ProcessView::fresh(c as usize, pid, euid)).register_process(
            c,
            self.procs.len() as usize,
        )
    }

    /// Place in the thread table of process `p`, from `from` on, of the
    /// thread of task `tid`; the size of the table if there is none.
    pub open spec fn thread_pos(self, p: int, tid: i32, from: int) -> int
        decreases self.procs[p].threads.len() - from,
    {
        let ts = self.procs[p].threads;
        if from < 0 || from >= ts.len() {
            ts.len() as int
        } else if self.threads[ts[from] as int].id == tid {
            from
        } else {
            self.thread_pos(p, tid, from + 1)
        }
    }

    /// What `get_current_thread` returns: the thread of task `tid` in
    /// process `p`, a new one if the task has none yet.
    pub open spec fn get_current_thread_result(self, p: int, tid: i32) -> ThreadId {
        let i = self.thread_pos(p, tid, 0);
        if i < self.procs[p].threads.len() {
            self.procs[p].threads[i]
        } else {
            self.threads.len() as usize
        }
    }

    /// The engine after `get_current_thread`.
    pub open spec fn get_current_thread(self, p: int, tid: i32) -> BinderView {
        let i = self.thread_pos(p, tid, 0);
        if i < self.procs[p].threads.len() {
            self
        } else {
            self.push_thread(ThreadView::fresh(tid, p as usize)).with_proc(
                p,
                ProcessView {
                    threads: self.procs[p].threads.push(self.threads.len() as usize),
                    ..self.procs[p]
                },
            )
        }
    }

    /// The engine after the manager slot of context `c` was emptied and
    /// the reference in it given up.
    pub open spec fn unset_manager_node(self, c: int) -> BinderView {
        self.with_context(c, self.contexts[c].unset_manager_node()).drop_node_ref_opt(
            self.contexts[c].node,
        )
    }

    /// What `set_as_manager` answers: the error of `get_node`, else that
    /// of the manager slot.
    pub open spec fn set_as_manager_result(
        self,
        p: int,
        ptr: usize,
        cookie: usize,
        caller_euid: u32,
        hook: Option<BinderError>,
    ) -> Result<(), BinderError> {
        match self.get_node_result(p, ptr, cookie, true) {
            Err(e) => Err(e),
            Ok(r) => self.contexts[self.procs[p].ctx as int].set_manager_result(caller_euid, hook),
        }
    }

    /// The engine after `set_as_manager`. The process exports the node
    /// and holds a strong reference to it in the manager slot of its
    /// context. The node is queued on its owner like any node whose first
    /// reference was taken, so that the owner is told of the acquisition
    /// before any transaction that is sent to the node afterwards. If the
    /// slot cannot be taken the reference is given up.
    pub open spec fn set_as_manager(
        self,
        p: int,
        ptr: usize,
        cookie: usize,
        flags: u32,
        caller_euid: u32,
        hook: Option<BinderError>,
    ) -> BinderView {
        let c = self.procs[p].ctx as int;
        let s1 = self.get_node(p, ptr, cookie, flags, true, None);
        match self.get_node_result(p, ptr, cookie, true) {
            Err(e) => s1,
            Ok(r) => {
                let s2 = s1.with_context(c, s1.contexts[c].set_manager_node(r, caller_euid, hook));
                if self.contexts[c].set_manager_result(caller_euid, hook).is_ok() {
                    s2.with_proc(p, ProcessView { is_manager: true, ..s2.procs[p] })
                } else {
                    s2.drop_node_ref(r)
                }
            },
        }
    }

    /// A process that becomes manager with a node that it had not
    /// exported hears of the node. The node is new and has one strong
    /// reference that its owner does not know of, so that its delivery
    /// writes `BR_INCREFS` and `BR_ACQUIRE`. And it is queued: with the
    /// thread of the process that has waited longest, or else, unless the
    /// process is dead, at the back of the queue of the process.
    pub proof fn lemma_manager_node_is_reported(
        self,
        proc: ProcId,
        ptr: usize,
        cookie: usize,
        flags: u32,
        caller_euid: u32,
        hook: Option<BinderError>,
    )
        requires
            self.wf(),
            proc < self.procs.len(),
            self.get_existing_node(proc as int, ptr, cookie) == Ok::<Option<NodeId>, BinderError>(None),
            self.set_as_manager_result(proc as int, ptr, cookie, caller_euid, hook).is_ok(),
        ensures
            ({
                let p = proc as int;
                let s = self.set_as_manager(p, ptr, cookie, flags, caller_euid, hook);
                let n = self.nodes.len() as int;
                let item = WorkItem::Node(n as usize);
                &&& s.nodes.len() == n + 1
                &&& s.nodes[n].owner == proc
                &&& s.nodes[n].ptr == ptr
                &&& s.nodes[n].cookie == cookie
                &&& s.nodes[n].refs.strong.count == 1
                &&& s.nodes[n].refs.delivery() == (NodeDelivery {
                    increfs: true,
                    acquire: true,
                    release: false,
                    decrefs: false,
                    remove: false,
                })
                &&& s.procs[p].is_manager
                &&& s.contexts[self.procs[p].ctx as int].node == Some(Self::fresh_ref(n as usize, true))
                &&& if self.ready_thread_takes(p) {
                    let t = self.procs[p].ready_threads[0] as int;
                    s.threads[t].work_list == self.threads[t].work_list.push(item)
                        && s.threads[t].process_work_list
                } else {
                    self.procs[p].is_dead || s.procs[p].work == self.procs[p].work.push(item)
                }
            }),
    {
        let p = proc as int;
        assert(self.procs[p].valid(self.lens()));
        let s = self.set_as_manager(p, ptr, cookie, flags, caller_euid, hook);
        let n = self.nodes.len() as int;
        let item = WorkItem::Node(n as usize);
        let s0 = self.add_node(p, ptr, cookie, flags);
        let node = s0.nodes[n];
        let s1 = s0.with_node(n, node.with_refs(node.refs.update_spec(true, true, 1)));
        assert(node.refs.update_notifies(true, true, 1));
        assert(s1.threads == self.threads);
        assert(s1.procs[p].ready_threads == self.procs[p].ready_threads);
        assert(s1.ready_thread_takes(p) == self.ready_thread_takes(p));
        let s2 = s1.push_work(p, item);
        assert(s2 == self.get_node(p, ptr, cookie, flags, true, None));
        if self.ready_thread_takes(p) {
            let t = self.procs[p].ready_threads[0] as int;
            assert(s2.threads[t].work_list == self.threads[t].work_list.push(item));
        } else if !self.procs[p].is_dead {
            assert(s2.procs[p].work == self.procs[p].work.push(item));
        }
        assert(s.threads == s2.threads);
        assert(s.procs[p].work == s2.procs[p].work);
    }

    /// The engine after deferred work was recorded for process `p`.
    pub open spec fn defer(self, p: int, bit: u8) -> BinderView {
        self.with_proc(p, ProcessView { defer_work: self.procs[p].defer_work | bit, ..self.procs[p] })
    }

    /// The engine after every thread of a list was told to return to userspace.
    pub open spec fn flush_threads(self, ts: Seq<ThreadId>) -> BinderView
        decreases ts.len(),
    {
        if ts.len() == 0 {
            self
        } else {
            self.with_thread(
                ts[0] as int,
                ThreadView { looper_need_return: true, ..self.threads[ts[0] as int] },
            ).flush_threads(ts.drop_first())
        }
    }

    /// The engine after the deferred flush of process `p`.
    pub open spec fn deferred_flush(self, p: int) -> BinderView {
        self.flush_threads(self.procs[p].threads)
    }

    /// A search of a thread table stays inside it.
    pub proof fn lemma_thread_pos(self, p: int, tid: i32, from: int)
        requires
            0 <= from <= self.procs[p].threads.len(),
        ensures
            from <= self.thread_pos(p, tid, from) <= self.procs[p].threads.len(),
        decreases self.procs[p].threads.len() - from,
    {
        let ts = self.procs[p].threads;
        if from < ts.len() && self.threads[ts[from] as int].id != tid {
            self.lemma_thread_pos(p, tid, from + 1);
        }
    }

    /// Taking a context out of the registry keeps the engine well-formed,
    /// and taking it out twice is the same as once.
    pub proof fn lemma_deregister_context(self, c: ContextId)
        requires
            self.wf(),
        ensures
            self.deregister_context(c).wf(),
            self.deregister_context(c).deregister_context(c) == self.deregister_context(c),
            !self.deregister_context(c).context_list.contains(c),
    {
        let s = self.deregister_context(c);
        self.lemma_routed_same(s);
        lemma_without_idempotent(self.context_list, c);
        lemma_without_keeps_bound(self.context_list, c, self.contexts.len() as int);
        lemma_position(self.context_list, c, 0);
        let i = position(self.context_list, c, 0);
        assert forall|a: int, b: int| 0 <= a < b < s.context_list.len() implies s.contexts[(
        #[trigger] s.context_list[a]) as int].name != s.contexts[(
        #[trigger] s.context_list[b]) as int].name by {
            if i < self.context_list.len() {
                let oa = if a < i { a } else { a + 1 };
                let ob = if b < i { b } else { b + 1 };
                assert(s.context_list[a] == self.context_list[oa]);
                assert(s.context_list[b] == self.context_list[ob]);
            }
        }
        assert(s.lens() == self.lens());
    }

    /// The node of process `p`, among the first `k` of its table, with the
    /// lowest address above `ptr`.
    pub open spec fn next_node(self, p: int, ptr: usize, k: int) -> Option<NodeId>
        decreases k,
    {
        if k <= 0 {
            None
        } else {
            let best = self.next_node(p, ptr, k - 1);
            let n = self.procs[p].nodes[k - 1];
            if self.nodes[n as int].ptr > ptr && (best.is_none() || self.nodes[n as int].ptr
                < self.nodes[best.unwrap() as int].ptr) {
                Some(n)
            } else {
                best
            }
        }
    }

    /// What `get_node_debug_info` answers: the address, the cookie and the
    /// flags of the counts of the node of process `p` with the lowest
    /// address above `ptr`; all zero if there is none.
    pub open spec fn get_node_debug_info(self, p: int, ptr: usize) -> BinderNodeDebugInfo {
        match self.next_node(p, ptr, self.procs[p].nodes.len() as int) {
            Some(n) => BinderNodeDebugInfo {
                ptr: self.nodes[n as int].ptr as u64,
                cookie: self.nodes[n as int].cookie as u64,
                has_strong_ref: if self.nodes[n as int].refs.strong.has_count { 1 } else { 0 },
                has_weak_ref: if self.nodes[n as int].refs.weak.has_count { 1 } else { 0 },
            },
            None => BinderNodeDebugInfo { ptr: 0, cookie: 0, has_strong_ref: 0, has_weak_ref: 0 },
        }
    }

    /// What `get_node_info_from_ref` answers: `BadArg` unless every field
    /// of the request but the handle is zero, `Perm` unless the caller is
    /// the context manager, `BadArg` unless a strong reference can be had
    /// from the handle; else the counts of the node while that reference is held.
    pub open spec fn get_node_info_from_ref_result(self, p: int, info: BinderNodeInfoForRef) -> Result<
        BinderNodeInfoForRef,
        BinderError,
    > {
        if info.strong_count != 0 || info.weak_count != 0 || info.reserved1 != 0 || info.reserved2
            != 0 || info.reserved3 != 0 {
            Err(BinderError::BadArg)
        } else if !self.procs[p].is_manager {
            Err(BinderError::Perm)
        } else {
            match self.get_node_from_handle_result(p, info.handle, true) {
                Err(_) => Err(BinderError::BadArg),
                Ok(r) => {
                    let node = self.get_node_from_handle(p, info.handle, true).nodes[r.node as int];
                    Ok(
                        BinderNodeInfoForRef {
                            strong_count: clamp_u32(node.refs.strong.count),
                            weak_count: clamp_u32(node.refs.weak.count),
                            ..info
                        },
                    )
                },
            }
        }
    }

    /// The engine after `get_node_info_from_ref`: the reference that was
    /// taken to look at the node is given up again.
    pub open spec fn get_node_info_from_ref(self, p: int, info: BinderNodeInfoForRef) -> BinderView {
        match self.get_node_info_from_ref_result(p, info) {
            Ok(_) => self.get_node_from_handle(p, info.handle, true).drop_node_ref(
                self.get_node_from_handle_result(p, info.handle, true).unwrap(),
            ),
            Err(_) => if info.strong_count != 0 || info.weak_count != 0 || info.reserved1 != 0
                || info.reserved2 != 0 || info.reserved3 != 0 || !self.procs[p].is_manager {
                self
            } else {
                self.get_node_from_handle(p, info.handle, true)
            },
        }
    }
}

/// A count as it is reported in 32 bits: the largest number if it does not fit.
pub open spec fn clamp_u32(x: usize) -> u32 {
    if x > u32::MAX {
        u32::MAX
    } else {
        x as u32
    }
}

/// What `BINDER_GET_NODE_DEBUG_INFO` reports about a node.
#[derive(Clone, Copy, Debug, PartialEq, Eq, Structural)]
pub struct BinderNodeDebugInfo {
    pub ptr: u64,
    pub cookie: u64,
    pub has_strong_ref: u32,
    pub has_weak_ref: u32,
}

/// The request and the answer of `BINDER_GET_NODE_INFO_FOR_REF`.
#[derive(Clone, Copy, Debug, PartialEq, Eq, Structural)]
pub struct BinderNodeInfoForRef {
    pub handle: u32,
    pub strong_count: u32,
    pub weak_count: u32,
    pub reserved1: u32,
    pub reserved2: u32,
    pub reserved3: u32,
}

impl Binder {
    /// Finds the registered context with this name.
    pub fn find_context(&self, name: &Vec<u8>) -> (r: Option<ContextId>)
        requires
            self@.wf(),
        ensures
            r.is_some() == self@.name_registered(name@),
            r.is_some() ==> r.unwrap() < self@.contexts.len() && self@.context_list.contains(
                r.unwrap(),
            ) && self@.contexts[r.unwrap() as int].name == name@,
    {
        let mut i: usize = 0;
        while i < self.context_list.len()
            invariant
                self@.wf(),
                i <= self@.context_list.len(),
                forall|j: int|
                    0 <= j < i ==> self@.contexts[(#[trigger] self@.context_list[j]) as int].name
                        != name@,
            decreases self@.context_list.len() - i,
        {
            let c: ContextId = self.context_list[i];
            assert(self@.context_list[i as int] < self@.contexts.len());
            if bytes_eq(&self.contexts[c].name, name) {
                proof {
                    assert(self@.contexts[self@.context_list[i as int] as int].name == name@);
                }
                return Some(c);
            }
            i = i + 1;
        }
        None
    }

    /// Creates a context and enters it in the registry. No registered
    /// context may have the same name.
    pub fn create_context(&mut self, name: Vec<u8>) -> (c: ContextId)
        requires
            old(self)@.wf(),
            !old(self)@.name_registered(name@),
        ensures
            final(self)@ == old(self)@.create_context(name@),
            c == old(self)@.contexts.len(),
            final(self)@.wf(),
            final(self)@.extends(old(self)@),
            old(self)@.lens().le(final(self)@.lens()),
    {
        let c: ContextId = self.push_context(Context::new(name));
        self.context_list.push(c);
        proof {
            let s = self@;
            let o = old(self)@;
            o.push_context(ContextView::fresh(name@)).lemma_routed_same(s);
            assert(s.context_list == o.context_list.push(c));
            lemma_ids_below_ops(o.context_list, s.contexts.len() as int, c, 0);
            assert(s.context_list.no_duplicates()) by {
                assert forall|a: int, b: int|
                    0 <= a < s.context_list.len() && 0 <= b < s.context_list.len() && a
                        != b implies s.context_list[a] != s.context_list[b] by {
                    if a < o.context_list.len() {
                        assert(o.context_list[a] < o.contexts.len());
                    }
                    if b < o.context_list.len() {
                        assert(o.context_list[b] < o.contexts.len());
                    }
                }
            }
            assert(s.names_unique()) by {
                assert forall|a: int, b: int| 0 <= a < b < s.context_list.len() implies s.contexts[(
                #[trigger] s.context_list[a]) as int].name != s.contexts[(
                #[trigger] s.context_list[b]) as int].name by {
                    assert(o.context_list[a] < o.contexts.len());
                    if b < o.context_list.len() {
                        assert(o.context_list[b] < o.contexts.len());
                        assert(o.contexts[o.context_list[a] as int].name
                            != o.contexts[o.context_list[b] as int].name);
                    } else {
                        assert(o.contexts[o.context_list[a] as int].name != name@);
                    }
                }
            }
        }
        c
    }

    /// The contexts in the registry, in order of creation.
    pub fn get_all_contexts(&self) -> (r: Vec<ContextId>)
        ensures
            r@ == self@.context_list,
    {
        let mut out: Vec<ContextId> = Vec::new();
        let mut i: usize = 0;
        while i < self.context_list.len()
            invariant
                i <= self.context_list@.len(),
                out@ == self.context_list@.subrange(0, i as int),
            decreases self.context_list@.len() - i,
        {
            out.push(self.context_list[i]);
            i = i + 1;
            proof {
                assert(out@ =~= self.context_list@.subrange(0, i as int));
            }
        }
        proof {
            assert(self.context_list@.subrange(0, self.context_list@.len() as int)
                =~= self.context_list@);
        }
        out
    }

    /// Takes a context out of the registry; one that is not in it is ignored.
    pub fn deregister_context(&mut self, c: ContextId)
        requires
            old(self)@.wf(),
        ensures
            final(self)@ == old(self)@.deregister_context(c),
            final(self)@.wf(),
            final(self)@.extends(old(self)@),
            final(self)@.lens() == old(self)@.lens(),
    {
        proof {
            self@.lemma_deregister_context(c);
        }
        remove_value(&mut self.context_list, c);
    }

    /// The processes that use context `c`, in the order in which they
    /// opened it.
    pub fn get_all_procs(&self, c: ContextId) -> (r: Vec<ProcId>)
        requires
            c < self@.contexts.len(),
        ensures
            r@ == self@.contexts[c as int].all_procs,
    {
        let mut out: Vec<ProcId> = Vec::new();
        let procs = &self.contexts[c].manager.all_procs;
        let mut i: usize = 0;
        while i < procs.len()
            invariant
                i <= procs@.len(),
                out@ == procs@.subrange(0, i as int),
            decreases procs@.len() - i,
        {
            out.push(procs[i]);
            i = i + 1;
            proof {
                assert(out@ =~= procs@.subrange(0, i as int));
            }
        }
        proof {
            assert(procs@.subrange(0, procs@.len() as int) =~= procs@);
        }
        out
    }

    /// A process opens the endpoint of context `c`: it gets its tables and
    /// joins the context. `pid` is its process id, `euid` its effective uid.
    pub fn open(&mut self, c: ContextId, pid: i32, euid: u32) -> (p: ProcId)
        requires
            old(self)@.wf(),
            c < old(self)@.contexts.len(),
        ensures
            final(self)@ == old(self)@.open(c as int, pid, euid),
            p == old(self)@.procs.len(),
            final(self)@.wf(),
            final(self)@.extends(old(self)@),
            old(self)@.lens().le(final(self)@.lens()),
    {
        let p: ProcId = self.push_proc(Process::new(c, pid, euid));
        self.register_process(c, p);
        p
    }

    /// Enters process `p` in the members of context `c`. Returns `false`,
    /// and enters nothing, when the process belongs to another context.
    pub fn register_process(&mut self, c: ContextId, p: ProcId) -> (r: bool)
        requires
            old(self)@.wf(),
            c < old(self)@.contexts.len(),
            p < old(self)@.procs.len(),
        ensures
            final(self)@ == old(self)@.register_process(c as int, p),
            r == (old(self)@.procs[p as int].ctx == c),
            final(self)@.wf(),
            final(self)@.extends(old(self)@),
            final(self)@.lens() == old(self)@.lens(),
    {
        if self.procs[p].ctx != c {
            return false;
        }
        proof {
            let ctx = self@.contexts[c as int];
            assert(ctx.valid(self@.lens()));
            lemma_ids_below_ops(ctx.all_procs, self@.lens().procs, p, 0);
            self@.lemma_with_context(
                c as int,
                ContextView { all_procs: ctx.all_procs.push(p), ..ctx },
            );
        }
        self.context_mut(c).register_process(p);
        true
    }

    /// Takes process `p` out of the members of context `c`. Returns
    /// `false`, and changes nothing, when the process belongs to another context.
    pub fn deregister_process(&mut self, c: ContextId, p: ProcId) -> (r: bool)
        requires
            old(self)@.wf(),
            c < old(self)@.contexts.len(),
            p < old(self)@.procs.len(),
        ensures
            final(self)@ == old(self)@.deregister_process(c as int, p),
            r == (old(self)@.procs[p as int].ctx == c),
            final(self)@.wf(),
            final(self)@.extends(old(self)@),
            final(self)@.stays_down(old(self)@),
            final(self)@.lens() == old(self)@.lens(),
    {
        if self.procs[p].ctx != c {
            return false;
        }
        proof {
            let ctx = self@.contexts[c as int];
            assert(ctx.valid(self@.lens()));
            lemma_without_keeps_bound(ctx.all_procs, p, self@.lens().procs);
            self@.lemma_with_context(
                c as int,
                ContextView { all_procs: without(ctx.all_procs, p), ..ctx },
            );
        }
        self.context_mut(c).deregister_process(p);
        true
    }

    /// Returns the thread of task `tid` in process `p`, making it on the
    /// task's first call.
    pub fn get_current_thread(&mut self, p: ProcId, tid: i32) -> (t: ThreadId)
        requires
            old(self)@.wf(),
            p < old(self)@.procs.len(),
        ensures
            final(self)@ == old(self)@.get_current_thread(p as int, tid),
            t == old(self)@.get_current_thread_result(p as int, tid),
            t < final(self)@.threads.len(),
            final(self)@.wf(),
            final(self)@.extends(old(self)@),
            old(self)@.lens().le(final(self)@.lens()),
            final(self)@.procs.len() == old(self)@.procs.len(),
    {
        let mut i: usize = 0;
        proof {
            self@.lemma_thread_pos(p as int, tid, 0);
        }
        while i < self.procs[p].inner.threads.len()
            invariant
                self@.wf(),
                self@ == old(self)@,
                p < self@.procs.len(),
                i <= self@.procs[p as int].threads.len(),
                self@.thread_pos(p as int, tid, 0) == self@.thread_pos(p as int, tid, i as int),
            decreases self@.procs[p as int].threads.len() - i,
        {
            assert(self@.procs[p as int].valid(self@.lens()));
            let t: ThreadId = self.procs[p].inner.threads[i];
            assert(self@.procs[p as int].threads[i as int] < self@.threads.len());
            if self.threads[t].id == tid {
                return t;
            }
            i = i + 1;
        }
        let t: ThreadId = self.push_thread(Thread::new(tid, p));
        proof {
            let pr = self@.procs[p as int];
            assert(pr.valid(self@.lens()));
            lemma_ids_below_ops(pr.threads, self@.lens().threads, t, 0);
            self@.lemma_with_proc(p as int, ProcessView { threads: pr.threads.push(t), ..pr });
        }
        self.proc_mut(p).inner.threads.push(t);
        t
    }

    /// Sets the size of the thread pool that process `p` allows.
    pub fn set_max_threads(&mut self, p: ProcId, max: u32)
        requires
            old(self)@.wf(),
            p < old(self)@.procs.len(),
        ensures
            final(self)@ == old(self)@.with_proc(
                p as int,
                ProcessView { max_threads: max, ..old(self)@.procs[p as int] },
            ),
            final(self)@.wf(),
            final(self)@.extends(old(self)@),
            final(self)@.lens() == old(self)@.lens(),
    {
        proof {
            let pr = self@.procs[p as int];
            assert(pr.valid(self@.lens()));
            self@.lemma_with_proc(p as int, ProcessView { max_threads: max, ..pr });
        }
        self.proc_mut(p).set_max_threads(max);
    }

    /// Empties the manager slot of context `c` and gives the reference in
    /// it up. Doing so again changes nothing.
    pub fn unset_manager_node(&mut self, c: ContextId)
        requires
            old(self)@.wf(),
            c < old(self)@.contexts.len(),
        ensures
            final(self)@ == old(self)@.unset_manager_node(c as int),
            final(self)@.wf(),
            final(self)@.extends(old(self)@),
            final(self)@.stays_down(old(self)@),
            final(self)@.lens() == old(self)@.lens(),
    {
        proof {
            let ctx = self@.contexts[c as int];
            assert(ctx.valid(self@.lens()));
            self@.lemma_with_context(c as int, ctx.unset_manager_node());
        }
        let r: Option<NodeRef> = self.context_mut(c).unset_manager_node();
        self.drop_node_ref_opt(r);
    }

    /// Records deferred work for process `p` and says whether it must be
    /// scheduled: that is, whether none was recorded before.
    pub fn defer(&mut self, p: ProcId, bit: u8) -> (should_schedule: bool)
        requires
            old(self)@.wf(),
            p < old(self)@.procs.len(),
        ensures
            final(self)@ == old(self)@.defer(p as int, bit),
            should_schedule == (old(self)@.procs[p as int].defer_work == 0),
            final(self)@.wf(),
            final(self)@.extends(old(self)@),
            final(self)@.lens() == old(self)@.lens(),
    {
        proof {
            let pr = self@.procs[p as int];
            assert(pr.valid(self@.lens()));
            self@.lemma_with_proc(p as int, ProcessView { defer_work: pr.defer_work | bit, ..pr });
        }
        let pm = self.proc_mut(p);
        let should_schedule: bool = pm.inner.defer_work == 0;
        pm.inner.defer_work = pm.inner.defer_work | bit;
        should_schedule
    }

    /// The endpoint of process `p` is flushed: every thread is to return
    /// to userspace, out of line. Returns whether the deferred work must
    /// be scheduled.
    pub fn flush(&mut self, p: ProcId) -> (should_schedule: bool)
        requires
            old(self)@.wf(),
            p < old(self)@.procs.len(),
        ensures
            final(self)@ == old(self)@.defer(p as int, PROC_DEFER_FLUSH),
            should_schedule == (old(self)@.procs[p as int].defer_work == 0),
            final(self)@.wf(),
            final(self)@.extends(old(self)@),
            final(self)@.lens() == old(self)@.lens(),
    {
        self.defer(p, PROC_DEFER_FLUSH)
    }

    /// The endpoint of process `p` is closed: the process is to be torn
    /// down, out of line. Returns whether the deferred work must be scheduled.
    pub fn release(&mut self, p: ProcId) -> (should_schedule: bool)
        requires
            old(self)@.wf(),
            p < old(self)@.procs.len(),
        ensures
            final(self)@ == old(self)@.defer(p as int, PROC_DEFER_RELEASE),
            should_schedule == (old(self)@.procs[p as int].defer_work == 0),
            final(self)@.wf(),
            final(self)@.extends(old(self)@),
            final(self)@.lens() == old(self)@.lens(),
    {
        self.defer(p, PROC_DEFER_RELEASE)
    }

    /// Tells every thread of process `p` to return to userspace.
    pub fn deferred_flush(&mut self, p: ProcId)
        requires
            old(self)@.wf(),
            p < old(self)@.procs.len(),
        ensures
            final(self)@ == old(self)@.deferred_flush(p as int),
            final(self)@.wf(),
            final(self)@.extends(old(self)@),
            final(self)@.lens() == old(self)@.lens(),
    {
        let ts: Vec<ThreadId> = self.thread_ids(p);
        let mut i: usize = 0;
        proof {
            assert(ts@.subrange(0, ts@.len() as int) =~= ts@);
            assert(self@.procs[p as int].valid(self@.lens()));
        }
        while i < ts.len()
            invariant
                i <= ts@.len(),
                self@.wf(),
                self@.lens() == old(self)@.lens(),
                self@.extends(old(self)@),
                crate::defs::ids_below(ts@, self@.threads.len() as int),
                self@.flush_threads(ts@.subrange(i as int, ts@.len() as int)) == old(self)@.deferred_flush(p as int),
            decreases ts@.len() - i,
        {
            let t: ThreadId = ts[i];
            proof {
                let rest = ts@.subrange(i as int, ts@.len() as int);
                assert(rest[0] == t);
                assert(rest.drop_first() =~= ts@.subrange(i + 1, ts@.len() as int));
                let thread = self@.threads[t as int];
                assert(thread.valid(self@.lens()));
                self@.lemma_with_thread(t as int, ThreadView { looper_need_return: true, ..thread });
            }
            self.thread_mut(t).looper_need_return = true;
            i = i + 1;
        }
    }

    /// The threads of process `p`.
    pub fn thread_ids(&self, p: ProcId) -> (r: Vec<ThreadId>)
        requires
            p < self@.procs.len(),
        ensures
            r@ == self@.procs[p as int].threads,
    {
        let mut out: Vec<ThreadId> = Vec::new();
        let ts = &self.procs[p].inner.threads;
        let mut i: usize = 0;
        while i < ts.len()
            invariant
                i <= ts@.len(),
                out@ == ts@.subrange(0, i as int),
            decreases ts@.len() - i,
        {
            out.push(ts[i]);
            i = i + 1;
            proof {
                assert(out@ =~= ts@.subrange(0, i as int));
            }
        }
        proof {
            assert(ts@.subrange(0, ts@.len() as int) =~= ts@);
        }
        out
    }

    /// Handles `BINDER_SET_CONTEXT_MGR`: process `p` exports the node that
    /// `info` describes, or the node at address 0 without cookie, and
    /// installs it as the manager of its context. `caller_euid` is the
    /// effective uid of the caller, `hook` the objection of the security
    /// hook, if it has one.
    pub fn set_as_manager(
        &mut self,
        p: ProcId,
        info: Option<FlatBinderObject>,
        caller_euid: u32,
        hook: Option<BinderError>,
    ) -> (r: Result<(), BinderError>)
        requires
            old(self)@.wf(),
            p < old(self)@.procs.len(),
        ensures
            ({
                let (ptr, cookie, flags) = manager_node_id(info);
                &&& final(self)@ == old(self)@.set_as_manager(
                    p as int,
                    ptr,
                    cookie,
                    flags,
                    caller_euid,
                    hook,
                )
                &&& r == old(self)@.set_as_manager_result(p as int, ptr, cookie, caller_euid, hook)
            }),
            final(self)@.wf(),
            final(self)@.extends(old(self)@),
            old(self)@.lens().le(final(self)@.lens()),
            final(self)@.procs.len() == old(self)@.procs.len(),
            final(self)@.threads.len() == old(self)@.threads.len(),
    {
        let (ptr, cookie, flags): (usize, usize, u32) = match info {
            Some(obj) => (obj.value as usize, obj.cookie as usize, obj.flags),
            None => (0, 0, 0),
        };
        assert(self@.procs[p as int].valid(self@.lens()));
        let c: ContextId = self.procs[p].ctx;
        let node_ref: NodeRef = match self.get_node(p, ptr, cookie, flags, true, None) {
            Ok(r) => r,
            Err(e) => {
                return Err(e);
            },
        };
        proof {
            let ctx = self@.contexts[c as int];
            assert(ctx.valid(self@.lens()));
            self@.lemma_with_context(c as int, ctx.set_manager_node(node_ref, caller_euid, hook));
        }
        match self.context_mut(c).set_manager_node(node_ref, caller_euid, hook) {
            Err((e, back)) => {
                self.drop_node_ref(back);
                Err(e)
            },
            Ok(()) => {
                proof {
                    let pr = self@.procs[p as int];
                    assert(pr.valid(self@.lens()));
                    self@.lemma_with_proc(p as int, ProcessView { is_manager: true, ..pr });
                }
                self.proc_mut(p).inner.is_manager = true;
                Ok(())
            },
        }
    }

    /// Handles `BINDER_GET_NODE_DEBUG_INFO`: reports on the node of
    /// process `p` with the lowest address above `ptr`.
    pub fn get_node_debug_info(&self, p: ProcId, ptr: usize) -> (r: BinderNodeDebugInfo)
        requires
            self@.wf(),
            p < self@.procs.len(),
        ensures
            r == self@.get_node_debug_info(p as int, ptr),
    {
        let mut best: Option<NodeId> = None;
        let mut i: usize = 0;
        assert(self@.procs[p as int].valid(self@.lens()));
        while i < self.procs[p].inner.nodes.len()
            invariant
                self@.wf(),
                p < self@.procs.len(),
                i <= self@.procs[p as int].nodes.len(),
                best == self@.next_node(p as int, ptr, i as int),
                best.is_some() ==> best.unwrap() < self@.nodes.len(),
            decreases self@.procs[p as int].nodes.len() - i,
        {
            assert(self@.procs[p as int].valid(self@.lens()));
            let n: NodeId = self.procs[p].inner.nodes[i];
            assert(self@.procs[p as int].nodes[i as int] < self@.nodes.len());
            let better: bool = self.nodes[n].ptr > ptr && match best {
                Some(b) => self.nodes[n].ptr < self.nodes[b].ptr,
                None => true,
            };
            if better {
                best = Some(n);
            }
            i = i + 1;
        }
        match best {
            Some(n) => BinderNodeDebugInfo {
                ptr: self.nodes[n].ptr as u64,
                cookie: self.nodes[n].cookie as u64,
                has_strong_ref: if self.nodes[n].inner.strong.has_count { 1 } else { 0 },
                has_weak_ref: if self.nodes[n].inner.weak.has_count { 1 } else { 0 },
            },
            None => BinderNodeDebugInfo { ptr: 0, cookie: 0, has_strong_ref: 0, has_weak_ref: 0 },
        }
    }

    /// Handles `BINDER_GET_NODE_INFO_FOR_REF`: the context manager asks
    /// for the counts of the node behind one of its handles.
    pub fn get_node_info_from_ref(&mut self, p: ProcId, info: BinderNodeInfoForRef) -> (r: Result<
        BinderNodeInfoForRef,
        BinderError,
    >)
        requires
            old(self)@.wf(),
            p < old(self)@.procs.len(),
        ensures
            final(self)@ == old(self)@.get_node_info_from_ref(p as int, info),
            r == old(self)@.get_node_info_from_ref_result(p as int, info),
            final(self)@.wf(),
            final(self)@.extends(old(self)@),
            final(self)@.lens() == old(self)@.lens(),
    {
        if info.strong_count != 0 || info.weak_count != 0 || info.reserved1 != 0 || info.reserved2
            != 0 || info.reserved3 != 0 {
            return Err(BinderError::BadArg);
        }
        if !self.procs[p].inner.is_manager {
            return Err(BinderError::Perm);
        }
        let node_ref: NodeRef = match self.get_node_from_handle(p, info.handle, true) {
            Ok(r) => r,
            Err(_) => {
                return Err(BinderError::BadArg);
            },
        };
        let n: NodeId = node_ref.node;
        let strong: usize = self.nodes[n].inner.strong.count;
        let weak: usize = self.nodes[n].inner.weak.count;
        let out = BinderNodeInfoForRef {
            handle: info.handle,
            strong_count: if strong > u32::MAX as usize { u32::MAX } else { strong as u32 },
            weak_count: if weak > u32::MAX as usize { u32::MAX } else { weak as u32 },
            reserved1: info.reserved1,
            reserved2: info.reserved2,
            reserved3: info.reserved3,
        };
        self.drop_node_ref(node_ref);
        Ok(out)
    }
}

/// The address, the cookie and the flags of the node that becomes the manager.
pub open spec fn manager_node_id(info: Option<FlatBinderObject>) -> (usize, usize, u32) {
    match info {
        Some(obj) => (obj.value as usize, obj.cookie as usize, obj.flags),
        None => (0usize, 0usize, 0u32),
    }
}

} // verus!

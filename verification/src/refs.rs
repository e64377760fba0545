//! Reference counting across processes: how references to nodes are made,
//! cloned, filed under handles and given up, and how each change reaches
//! the node's owner.

use vstd::prelude::*;
use crate::binder::{Binder, BinderView};
use crate::defs::{BinderError, ContextId, NodeId, ProcId, ThreadId, WorkItem};
use crate::node::{Node, NodeRef, NodeUpdate, NodeView};
use crate::node_refs::{
    handle_pos, has_handle, insert_or_update, insert_or_update_result,
    lemma_insert_or_update_wf,
};
use crate::process::ProcessView;

verus! {

impl BinderView {
    /// The engine after a reference count of node `n` changed. When the
    /// change crosses between zero and non-zero in a way that the owner
    /// must hear of, the node is queued: as deferred work on `othread` if
    /// one is given, else on the owner, who may be dead and then hears nothing.
    pub open spec fn update_node_refcount(
        self,
        n: int,
        inc: bool,
        strong: bool,
        count: usize,
        othread: Option<ThreadId>,
    ) -> BinderView {
        let node = self.nodes[n];
        let s1 = self.with_node(n, node.with_refs(node.refs.update_spec(inc, strong, count)));
        if node.refs.update_notifies(inc, strong, count) {
            match othread {
                Some(t) => s1.thread_push_work_deferred(t as int, WorkItem::Node(n as usize)),
                None => s1.push_work(node.owner as int, WorkItem::Node(n as usize)),
            }
        } else {
            s1
        }
    }

    /// The engine after a change that a reference asked of its node, if it asked one.
    pub open spec fn apply_node_update(self, n: int, update: Option<NodeUpdate>) -> BinderView {
        match update {
            Some(u) => self.update_node_refcount(n, u.inc, u.strong, u.count, None),
            None => self,
        }
    }

    /// The engine after a reference was given up: the node loses what the
    /// reference contributed, the strong part first.
    pub open spec fn drop_node_ref(self, r: NodeRef) -> BinderView {
        self.apply_node_update(r.node as int, r.strong_release()).apply_node_update(
            r.node as int,
            r.weak_release(),
        )
    }

    /// The engine after a reference was given up, if there was one.
    pub open spec fn drop_node_ref_opt(self, r: Option<NodeRef>) -> BinderView {
        match r {
            Some(r) => self.drop_node_ref(r),
            None => self,
        }
    }

    /// A new reference to node `n` with one count of the kind asked for.
    pub open spec fn fresh_ref(n: NodeId, strong: bool) -> NodeRef {
        NodeRef {
            node: n,
            strong_node_count: if strong { 1 } else { 0 },
            weak_node_count: if strong { 0 } else { 1 },
            strong_count: if strong { 1 } else { 0 },
            weak_count: if strong { 0 } else { 1 },
        }
    }

    /// The engine after a new reference to node `n` was made.
    pub open spec fn new_node_ref(self, n: int, strong: bool, othread: Option<ThreadId>) -> BinderView {
        self.update_node_refcount(n, true, strong, 1, othread)
    }

    /// Place in the node table of process `p`, from `from` on, of the first
    /// node that userspace knows under `ptr`; the size of the table if
    /// there is none.
    pub open spec fn node_pos(self, p: int, ptr: usize, from: int) -> int
        decreases self.procs[p].nodes.len() - from,
    {
        let ns = self.procs[p].nodes;
        if from < 0 || from >= ns.len() {
            ns.len() as int
        } else if self.nodes[ns[from] as int].ptr == ptr {
            from
        } else {
            self.node_pos(p, ptr, from + 1)
        }
    }

    /// The node of process `p` that userspace knows under `ptr`: none, the
    /// node, or `BadArg` when the node's cookie is not `cookie`.
    pub open spec fn get_existing_node(self, p: int, ptr: usize, cookie: usize) -> Result<
        Option<NodeId>,
        BinderError,
    > {
        let i = self.node_pos(p, ptr, 0);
        if i >= self.procs[p].nodes.len() {
            Ok(None)
        } else if self.nodes[self.procs[p].nodes[i] as int].cookie == cookie {
            Ok(Some(self.procs[p].nodes[i]))
        } else {
            Err(BinderError::BadArg)
        }
    }

    /// The engine with a new node of process `p`.
    pub open spec fn add_node(self, p: int, ptr: usize, cookie: usize, flags: u32) -> BinderView {
        let n = self.nodes.len();
        self.push_node(NodeView::fresh(n as u64, ptr, cookie, flags, p as usize)).with_proc(
            p,
            ProcessView { nodes: self.procs[p].nodes.push(n as usize), ..self.procs[p] },
        )
    }

    /// What `get_node` answers: a reference to the node that userspace
    /// knows under `ptr`, made if need be; `BadArg` on a wrong cookie.
    pub open spec fn get_node_result(self, p: int, ptr: usize, cookie: usize, strong: bool) -> Result<
        NodeRef,
        BinderError,
    > {
        match self.get_existing_node(p, ptr, cookie) {
            Err(e) => Err(e),
            Ok(Some(n)) => Ok(Self::fresh_ref(n, strong)),
            Ok(None) => Ok(Self::fresh_ref(self.nodes.len() as usize, strong)),
        }
    }

    /// The engine after `get_node`.
    pub open spec fn get_node(
        self,
        p: int,
        ptr: usize,
        cookie: usize,
        flags: u32,
        strong: bool,
        othread: Option<ThreadId>,
    ) -> BinderView {
        match self.get_existing_node(p, ptr, cookie) {
            Err(e) => self,
            Ok(Some(n)) => self.new_node_ref(n as int, strong, othread),
            Ok(None) => self.add_node(p, ptr, cookie, flags).new_node_ref(
                self.nodes.len() as int,
                strong,
                othread,
            ),
        }
    }

    /// What cloning a reference answers: `Failed` for a strong clone of a
    /// reference without strong count.
    pub open spec fn clone_node_ref_result(r: NodeRef, strong: bool) -> Result<NodeRef, BinderError> {
        if r.can_clone(strong) {
            Ok(Self::fresh_ref(r.node, strong))
        } else {
            Err(BinderError::Failed)
        }
    }

    /// The engine after a reference was cloned.
    pub open spec fn clone_node_ref(self, r: NodeRef, strong: bool) -> BinderView {
        if r.can_clone(strong) {
            self.new_node_ref(r.node as int, strong, None)
        } else {
            self
        }
    }

    /// What `insert_or_update_handle` answers.
    pub open spec fn insert_or_update_handle_result(self, p: int, node_ref: NodeRef, is_manager: bool) -> Result<
        u32,
        BinderError,
    > {
        insert_or_update_result(self.procs[p].node_refs, node_ref, is_manager, self.procs[p].is_dead)
    }

    /// The engine after `insert_or_update_handle`: the reference is filed
    /// in the handle table of `p`, or given up if that fails.
    pub open spec fn insert_or_update_handle(self, p: int, node_ref: NodeRef, is_manager: bool) -> BinderView {
        let pr = self.procs[p];
        let s1 = self.with_proc(
            p,
            ProcessView {
                node_refs: insert_or_update(pr.node_refs, node_ref, is_manager, pr.is_dead),
                ..pr
            },
        );
        if self.insert_or_update_handle_result(p, node_ref, is_manager).is_ok() {
            s1
        } else {
            s1.drop_node_ref(node_ref)
        }
    }

    /// What `get_node_from_handle` answers: a clone of the reference filed
    /// under the handle, `NoEnt` when there is none.
    pub open spec fn get_node_from_handle_result(self, p: int, handle: u32, strong: bool) -> Result<
        NodeRef,
        BinderError,
    > {
        let refs = self.procs[p].node_refs;
        if has_handle(refs, handle) {
            Self::clone_node_ref_result(refs[handle_pos(refs, handle, 0)].info.node_ref, strong)
        } else {
            Err(BinderError::NoEnt)
        }
    }

    /// The engine after `get_node_from_handle`.
    pub open spec fn get_node_from_handle(self, p: int, handle: u32, strong: bool) -> BinderView {
        let refs = self.procs[p].node_refs;
        if has_handle(refs, handle) {
            self.clone_node_ref(refs[handle_pos(refs, handle, 0)].info.node_ref, strong)
        } else {
            self
        }
    }

    /// What `get_manager_node` answers: a clone of the manager's reference,
    /// `Dead` when no manager is installed.
    pub open spec fn get_manager_node_result(self, c: int, strong: bool) -> Result<NodeRef, BinderError> {
        match self.contexts[c].node {
            Some(r) => Self::clone_node_ref_result(r, strong),
            None => Err(BinderError::Dead),
        }
    }

    /// The engine after `get_manager_node`.
    pub open spec fn get_manager_node(self, c: int, strong: bool) -> BinderView {
        match self.contexts[c].node {
            Some(r) => self.clone_node_ref(r, strong),
            None => self,
        }
    }

    /// What `get_transaction_node` answers: handle 0 names the context
    /// manager, any other handle a row of the handle table.
    pub open spec fn get_transaction_node_result(self, p: int, handle: u32) -> Result<
        NodeRef,
        BinderError,
    > {
        if handle == 0 {
            self.get_manager_node_result(self.procs[p].ctx as int, true)
        } else {
            self.get_node_from_handle_result(p, handle, true)
        }
    }

    /// The engine after `get_transaction_node`.
    pub open spec fn get_transaction_node(self, p: int, handle: u32) -> BinderView {
        if handle == 0 {
            self.get_manager_node(self.procs[p].ctx as int, true)
        } else {
            self.get_node_from_handle(p, handle, true)
        }
    }

    /// The engine after `update_node`: one reference of the kind given is
    /// taken from the node that userspace knows under `ptr` and `cookie`,
    /// if there is such a node.
    pub open spec fn update_node(self, p: int, ptr: usize, cookie: usize, strong: bool) -> BinderView {
        match self.get_existing_node(p, ptr, cookie) {
            Ok(Some(n)) => self.update_node_refcount(n as int, false, strong, 1, None),
            _ => self,
        }
    }

    /// The engine after `inc_ref_done`: the owner acknowledged an
    /// acquisition; the node is queued again if a drop was held back.
    pub open spec fn inc_ref_done(self, p: int, ptr: usize, cookie: usize) -> BinderView {
        match self.get_existing_node(p, ptr, cookie) {
            Ok(Some(n)) => {
                let node = self.nodes[n as int];
                let s1 = self.with_node(n as int, node.with_refs(node.refs.inc_ref_done_spec()));
                if node.refs.inc_ref_done_reschedules() {
                    s1.push_work(p, WorkItem::Node(n))
                } else {
                    s1
                }
            },
            _ => self,
        }
    }

    /// A search of the node table gives the size of the table or the place
    /// of the first node with the pointer.
    pub proof fn lemma_node_pos(self, p: int, ptr: usize, from: int)
        requires
            0 <= from <= self.procs[p].nodes.len(),
        ensures
            from <= self.node_pos(p, ptr, from) <= self.procs[p].nodes.len(),
        decreases self.procs[p].nodes.len() - from,
    {
        let ns = self.procs[p].nodes;
        if from < ns.len() && self.nodes[ns[from] as int].ptr != ptr {
            self.lemma_node_pos(p, ptr, from + 1);
        }
    }
}

impl Binder {
    /// Adds or subtracts `count` on a reference count of node `n`, and
    /// queues the node for delivery to its owner when the owner must hear
    /// of the change.
    pub fn update_node_refcount(
        &mut self,
        n: NodeId,
        inc: bool,
        strong: bool,
        count: usize,
        othread: Option<ThreadId>,
    )
        requires
            old(self)@.wf(),
            n < old(self)@.nodes.len(),
            othread.is_some() ==> othread.unwrap() < old(self)@.threads.len(),
        ensures
            final(self)@ == old(self)@.update_node_refcount(n as int, inc, strong, count, othread),
            final(self)@.wf(),
            final(self)@.extends(old(self)@),
            final(self)@.stays_down(old(self)@),
            final(self)@.same_oneway(old(self)@),
            final(self)@.lens() == old(self)@.lens(),
    {
        proof {
            let node = self@.nodes[n as int];
            assert(node.valid(self@.lens()));
            node.refs.lemma_wf_preserved(inc, strong, count);
            self@.lemma_with_node(
                n as int,
                node.with_refs(node.refs.update_spec(inc, strong, count)),
            );
        }
        let push: bool = self.node_mut(n).update_refcount_locked(inc, strong, count);
        if push {
            match othread {
                Some(t) => {
                    self.thread_push_work_deferred(t, WorkItem::Node(n));
                },
                None => {
                    let owner: ProcId = self.nodes[n].owner;
                    assert(self@.nodes[n as int].valid(self@.lens()));
                    let _ = self.push_work(owner, WorkItem::Node(n));
                },
            }
        }
    }

    /// Applies the change that a reference asked of its node, if it asked one.
    pub fn apply_node_update(&mut self, n: NodeId, update: Option<NodeUpdate>)
        requires
            old(self)@.wf(),
            n < old(self)@.nodes.len(),
        ensures
            final(self)@ == old(self)@.apply_node_update(n as int, update),
            final(self)@.wf(),
            final(self)@.extends(old(self)@),
            final(self)@.stays_down(old(self)@),
            final(self)@.same_oneway(old(self)@),
            final(self)@.lens() == old(self)@.lens(),
    {
        match update {
            Some(u) => self.update_node_refcount(n, u.inc, u.strong, u.count, None),
            None => {},
        }
    }

    /// Gives a reference up: the node loses what the reference contributed.
    pub fn drop_node_ref(&mut self, r: NodeRef)
        requires
            old(self)@.wf(),
            r.node < old(self)@.nodes.len(),
        ensures
            final(self)@ == old(self)@.drop_node_ref(r),
            final(self)@.wf(),
            final(self)@.extends(old(self)@),
            final(self)@.stays_down(old(self)@),
            final(self)@.same_oneway(old(self)@),
            final(self)@.lens() == old(self)@.lens(),
    {
        let n: NodeId = r.node;
        let (s, w) = r.release();
        self.apply_node_update(n, s);
        self.apply_node_update(n, w);
    }

    /// Gives a reference up, if there is one.
    pub fn drop_node_ref_opt(&mut self, r: Option<NodeRef>)
        requires
            old(self)@.wf(),
            r.is_some() ==> r.unwrap().node < old(self)@.nodes.len(),
        ensures
            final(self)@ == old(self)@.drop_node_ref_opt(r),
            final(self)@.wf(),
            final(self)@.extends(old(self)@),
            final(self)@.stays_down(old(self)@),
            final(self)@.same_oneway(old(self)@),
            final(self)@.lens() == old(self)@.lens(),
    {
        match r {
            Some(r) => self.drop_node_ref(r),
            None => {},
        }
    }

    /// Makes a new reference to node `n`, strong or weak, and counts it on the node.
    pub fn new_node_ref(&mut self, n: NodeId, strong: bool, othread: Option<ThreadId>) -> (r: NodeRef)
        requires
            old(self)@.wf(),
            n < old(self)@.nodes.len(),
            othread.is_some() ==> othread.unwrap() < old(self)@.threads.len(),
        ensures
            final(self)@ == old(self)@.new_node_ref(n as int, strong, othread),
            r == BinderView::fresh_ref(n, strong),
            final(self)@.wf(),
            final(self)@.extends(old(self)@),
            final(self)@.same_oneway(old(self)@),
            final(self)@.lens() == old(self)@.lens(),
    {
        self.update_node_refcount(n, true, strong, 1, othread);
        let strong_count: usize = if strong { 1 } else { 0 };
        NodeRef::new(n, strong_count, 1 - strong_count)
    }

    /// Looks up the node of process `p` that userspace knows under `ptr`.
    /// Fails with `BadArg` when the node's cookie is not `cookie`.
    pub fn get_existing_node(&self, p: ProcId, ptr: usize, cookie: usize) -> (r: Result<
        Option<NodeId>,
        BinderError,
    >)
        requires
            self@.wf(),
            p < self@.procs.len(),
        ensures
            r == self@.get_existing_node(p as int, ptr, cookie),
            r.is_ok() && r.unwrap().is_some() ==> r.unwrap().unwrap() < self@.nodes.len(),
    {
        let mut i: usize = 0;
        assert(self@.procs[p as int].valid(self@.lens()));
        proof {
            self@.lemma_node_pos(p as int, ptr, 0);
        }
        while i < self.procs[p].inner.nodes.len()
            invariant
                self@.wf(),
                p < self@.procs.len(),
                i <= self@.procs[p as int].nodes.len(),
                self@.node_pos(p as int, ptr, 0) == self@.node_pos(p as int, ptr, i as int),
            decreases self@.procs[p as int].nodes.len() - i,
        {
            assert(self@.procs[p as int].valid(self@.lens()));
            let n: NodeId = self.procs[p].inner.nodes[i];
            assert(self@.procs[p as int].nodes[i as int] < self@.nodes.len());
            if self.nodes[n].ptr == ptr {
                if self.nodes[n].cookie == cookie {
                    return Ok(Some(n));
                } else {
                    return Err(BinderError::BadArg);
                }
            }
            i = i + 1;
        }
        Ok(None)
    }

    /// Returns a reference to the node that userspace of process `p` knows
    /// under `ptr` and `cookie`, making the node if it does not exist.
    pub fn get_node(
        &mut self,
        p: ProcId,
        ptr: usize,
        cookie: usize,
        flags: u32,
        strong: bool,
        othread: Option<ThreadId>,
    ) -> (r: Result<NodeRef, BinderError>)
        requires
            old(self)@.wf(),
            p < old(self)@.procs.len(),
            othread.is_some() ==> othread.unwrap() < old(self)@.threads.len(),
        ensures
            final(self)@ == old(self)@.get_node(p as int, ptr, cookie, flags, strong, othread),
            r == old(self)@.get_node_result(p as int, ptr, cookie, strong),
            r.is_ok() ==> r.unwrap().node < final(self)@.nodes.len(),
            final(self)@.wf(),
            final(self)@.extends(old(self)@),
            old(self)@.lens().le(final(self)@.lens()),
            final(self)@.procs.len() == old(self)@.procs.len(),
            final(self)@.threads.len() == old(self)@.threads.len(),
            final(self)@.txns.len() == old(self)@.txns.len(),
            final(self)@.contexts == old(self)@.contexts,
    {
        match self.get_existing_node(p, ptr, cookie) {
            Err(e) => Err(e),
            Ok(Some(n)) => Ok(self.new_node_ref(n, strong, othread)),
            Ok(None) => {
                let id: usize = self.nodes.len();
                let node = Node::new(id as u64, ptr, cookie, flags, p);
                let n: NodeId = self.push_node(node);
                proof {
                    let pr = self@.procs[p as int];
                    assert(pr.valid(self@.lens()));
                    self@.lemma_with_proc(p as int, ProcessView { nodes: pr.nodes.push(n), ..pr });
                }
                self.proc_mut(p).inner.nodes.push(n);
                Ok(self.new_node_ref(n, strong, othread))
            },
        }
    }

    /// Clones a reference. Fails with `Failed` for a strong clone of a
    /// reference without strong count.
    pub fn clone_node_ref(&mut self, r: &NodeRef, strong: bool) -> (c: Result<NodeRef, BinderError>)
        requires
            old(self)@.wf(),
            r.node < old(self)@.nodes.len(),
        ensures
            final(self)@ == old(self)@.clone_node_ref(*r, strong),
            c == BinderView::clone_node_ref_result(*r, strong),
            c.is_ok() ==> c.unwrap().node == r.node,
            final(self)@.wf(),
            final(self)@.extends(old(self)@),
            final(self)@.lens() == old(self)@.lens(),
    {
        if !r.check_clone(strong) {
            return Err(BinderError::Failed);
        }
        Ok(self.new_node_ref(r.node, strong, None))
    }

    /// Files a reference in the handle table of process `p` and returns its
    /// handle. A reference that cannot be filed is given up.
    pub fn insert_or_update_handle(&mut self, p: ProcId, node_ref: NodeRef, is_manager: bool) -> (r: Result<
        u32,
        BinderError,
    >)
        requires
            old(self)@.wf(),
            p < old(self)@.procs.len(),
            node_ref.node < old(self)@.nodes.len(),
        ensures
            final(self)@ == old(self)@.insert_or_update_handle(p as int, node_ref, is_manager),
            r == old(self)@.insert_or_update_handle_result(p as int, node_ref, is_manager),
            final(self)@.wf(),
            final(self)@.extends(old(self)@),
            final(self)@.same_oneway(old(self)@),
            final(self)@.lens() == old(self)@.lens(),
    {
        let is_dead: bool = self.procs[p].inner.is_dead;
        proof {
            let pr = self@.procs[p as int];
            assert(pr.valid(self@.lens()));
            lemma_insert_or_update_wf(pr.node_refs, node_ref, is_manager, is_dead, self@.lens());
            self@.lemma_with_proc(
                p as int,
                ProcessView {
                    node_refs: insert_or_update(pr.node_refs, node_ref, is_manager, pr.is_dead),
                    ..pr
                },
            );
        }
        match self.proc_mut(p).node_refs.insert_or_update_handle(node_ref, is_manager, is_dead) {
            Ok(h) => Ok(h),
            Err((e, back)) => {
                self.drop_node_ref(back);
                Err(e)
            },
        }
    }

    /// Clones the reference that process `p` holds under `handle`. Fails
    /// with `NoEnt` when there is none.
    pub fn get_node_from_handle(&mut self, p: ProcId, handle: u32, strong: bool) -> (r: Result<
        NodeRef,
        BinderError,
    >)
        requires
            old(self)@.wf(),
            p < old(self)@.procs.len(),
        ensures
            final(self)@ == old(self)@.get_node_from_handle(p as int, handle, strong),
            r == old(self)@.get_node_from_handle_result(p as int, handle, strong),
            r.is_ok() ==> r.unwrap().node < final(self)@.nodes.len(),
            final(self)@.wf(),
            final(self)@.extends(old(self)@),
            final(self)@.lens() == old(self)@.lens(),
    {
        assert(self@.procs[p as int].valid(self@.lens()));
        match self.procs[p].node_refs.find_handle(handle) {
            None => Err(BinderError::NoEnt),
            Some(i) => {
                let n: NodeId = self.procs[p].node_refs.entries[i].info.node_ref.node;
                let can: bool = self.procs[p].node_refs.entries[i].info.node_ref.check_clone(strong);
                assert(self@.procs[p as int].node_refs[i as int].info.node_ref.node
                    < self@.nodes.len());
                if !can {
                    return Err(BinderError::Failed);
                }
                Ok(self.new_node_ref(n, strong, None))
            },
        }
    }

    /// Clones the reference to the manager of context `c`. Fails with
    /// `Dead` when no manager is installed.
    pub fn get_manager_node(&mut self, c: ContextId, strong: bool) -> (r: Result<
        NodeRef,
        BinderError,
    >)
        requires
            old(self)@.wf(),
            c < old(self)@.contexts.len(),
        ensures
            final(self)@ == old(self)@.get_manager_node(c as int, strong),
            r == old(self)@.get_manager_node_result(c as int, strong),
            r.is_ok() ==> r.unwrap().node < final(self)@.nodes.len(),
            final(self)@.wf(),
            final(self)@.extends(old(self)@),
            final(self)@.same_oneway(old(self)@),
            final(self)@.lens() == old(self)@.lens(),
    {
        assert(self@.contexts[c as int].valid(self@.lens()));
        let (n, can): (NodeId, bool) = match &self.contexts[c].manager.node {
            None => {
                return Err(BinderError::Dead);
            },
            Some(r) => (r.node, r.check_clone(strong)),
        };
        if !can {
            return Err(BinderError::Failed);
        }
        Ok(self.new_node_ref(n, strong, None))
    }

    /// Resolves the target of a transaction: handle 0 names the context
    /// manager, any other handle a row of the sender's handle table.
    pub fn get_transaction_node(&mut self, p: ProcId, handle: u32) -> (r: Result<
        NodeRef,
        BinderError,
    >)
        requires
            old(self)@.wf(),
            p < old(self)@.procs.len(),
        ensures
            final(self)@ == old(self)@.get_transaction_node(p as int, handle),
            r == old(self)@.get_transaction_node_result(p as int, handle),
            r.is_ok() ==> r.unwrap().node < final(self)@.nodes.len(),
            final(self)@.wf(),
            final(self)@.extends(old(self)@),
            final(self)@.lens() == old(self)@.lens(),
    {
        assert(self@.procs[p as int].valid(self@.lens()));
        if handle == 0 {
            let c: ContextId = self.procs[p].ctx;
            self.get_manager_node(c, true)
        } else {
            self.get_node_from_handle(p, handle, true)
        }
    }

    /// Takes one reference of the kind given from the node that userspace
    /// of process `p` knows under `ptr` and `cookie`, if there is such a node.
    pub fn update_node(&mut self, p: ProcId, ptr: usize, cookie: usize, strong: bool)
        requires
            old(self)@.wf(),
            p < old(self)@.procs.len(),
        ensures
            final(self)@ == old(self)@.update_node(p as int, ptr, cookie, strong),
            final(self)@.wf(),
            final(self)@.extends(old(self)@),
            final(self)@.stays_down(old(self)@),
            final(self)@.same_oneway(old(self)@),
            final(self)@.lens() == old(self)@.lens(),
    {
        match self.get_existing_node(p, ptr, cookie) {
            Ok(Some(n)) => self.update_node_refcount(n, false, strong, 1, None),
            _ => {},
        }
    }

    /// The owner acknowledges an acquisition that was reported for the node
    /// that it knows under `ptr` and `cookie`.
    pub fn inc_ref_done(&mut self, p: ProcId, ptr: usize, cookie: usize, strong: bool)
        requires
            old(self)@.wf(),
            p < old(self)@.procs.len(),
        ensures
            final(self)@ == old(self)@.inc_ref_done(p as int, ptr, cookie),
            final(self)@.wf(),
            final(self)@.extends(old(self)@),
            final(self)@.lens() == old(self)@.lens(),
    {
        match self.get_existing_node(p, ptr, cookie) {
            Ok(Some(n)) => {
                proof {
                    let node = self@.nodes[n as int];
                    assert(node.valid(self@.lens()));
                    node.refs.lemma_wf_preserved(true, true, 0);
                    self@.lemma_with_node(
                        n as int,
                        node.with_refs(node.refs.inc_ref_done_spec()),
                    );
                }
                if self.node_mut(n).inc_ref_done_locked(strong) {
                    let _ = self.push_work(p, WorkItem::Node(n));
                }
            },
            _ => {},
        }
    }
}

} // verus!

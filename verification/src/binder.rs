//! The engine: the arenas that hold every object, and the engine as a
//! mathematical value over which the contracts of its operations are stated.

use vstd::prelude::*;
use crate::context::{Context, ContextView};
use crate::defs::{ids_below, ContextId, Lens, TxnId, WorkItem};
use crate::node::{Node, NodeDeath, NodeView};
use crate::process::{Process, ProcessView};
use crate::thread::{Thread, ThreadView};
use crate::transaction::{Transaction, TransactionView};

verus! {

pub struct Binder {
    pub contexts: Vec<Context>,
    /// The registry: the contexts that have not been deregistered.
    pub context_list: Vec<ContextId>,
    pub procs: Vec<Process>,
    pub threads: Vec<Thread>,
    pub nodes: Vec<Node>,
    pub deaths: Vec<NodeDeath>,
    pub txns: Vec<Transaction>,
}

/// The engine as a mathematical value.
pub struct BinderView {
    pub contexts: Seq<ContextView>,
    pub context_list: Seq<ContextId>,
    pub procs: Seq<ProcessView>,
    pub threads: Seq<ThreadView>,
    pub nodes: Seq<NodeView>,
    pub deaths: Seq<NodeDeath>,
    pub txns: Seq<TransactionView>,
}

impl View for Binder {
    type V = BinderView;

    open spec fn view(&self) -> BinderView {
        BinderView {
            contexts: views(self.contexts@),
            context_list: self.context_list@,
            procs: views(self.procs@),
            threads: views(self.threads@),
            nodes: views(self.nodes@),
            deaths: self.deaths@,
            txns: views(self.txns@),
        }
    }
}

/// The values that the objects of an arena stand for.
pub open spec fn views<T: View>(s: Seq<T>) -> Seq<T::V> {
    Seq::new(s.len(), |i: int| s[i]@)
}

/// Replacing one object of an arena replaces its value.
pub proof fn lemma_views_update<T: View>(s: Seq<T>, i: int)
    requires
        0 <= i < s.len(),
    ensures
        forall|x: T| #[trigger] views(s.update(i, x)) == views(s).update(i, x@),
        views(s)[i] == s[i]@,
        views(s).len() == s.len(),
{
    assert forall|x: T| #[trigger] views(s.update(i, x)) == views(s).update(i, x@) by {
        assert(views(s.update(i, x)) =~= views(s).update(i, x@));
    }
}

/// Adding an object to an arena adds its value.
pub proof fn lemma_views_push<T: View>(s: Seq<T>, x: T)
    ensures
        views(s.push(x)) == views(s).push(x@),
        views(s).len() == s.len(),
{
    assert(views(s.push(x)) =~= views(s).push(x@));
}

impl BinderView {
    /// The sizes of the arenas.
    pub open spec fn lens(self) -> Lens {
        Lens {
            contexts: self.contexts.len() as int,
            procs: self.procs.len() as int,
            threads: self.threads.len() as int,
            nodes: self.nodes.len() as int,
            deaths: self.deaths.len() as int,
            txns: self.txns.len() as int,
        }
    }

    /// Every object is well-formed and names only objects that exist; a
    /// node's global id is its place in the arena; no context is registered twice.
    pub open spec fn wf(self) -> bool {
        &&& forall|i: int|
            0 <= i < self.contexts.len() ==> (#[trigger] self.contexts[i]).valid(self.lens())
        &&& ids_below(self.context_list, self.contexts.len() as int)
        &&& self.context_list.no_duplicates()
        &&& self.names_unique()
        &&& forall|i: int| 0 <= i < self.procs.len() ==> (#[trigger] self.procs[i]).valid(self.lens())
        &&& forall|i: int|
            0 <= i < self.threads.len() ==> (#[trigger] self.threads[i]).valid(self.lens())
        &&& forall|i: int|
            0 <= i < self.nodes.len() ==> (#[trigger] self.nodes[i]).valid(self.lens())
                && self.nodes[i].global_id == i
        &&& forall|i: int|
            0 <= i < self.deaths.len() ==> (#[trigger] self.deaths[i]).valid(self.lens())
        &&& forall|i: int|
            0 <= i < self.txns.len() ==> (#[trigger] self.txns[i]).valid(self.lens(), i)
        &&& self.routed()
    }

    /// Whether a piece of work may sit in a queue of process `p`: a
    /// transaction only if it was sent to `p`.
    pub open spec fn item_for(self, item: WorkItem, p: int) -> bool {
        match item {
            WorkItem::Transaction(t) => self.txns[t as int].to == p,
            _ => true,
        }
    }

    /// Every item of a queue may sit in a queue of process `p`.
    pub open spec fn items_for(self, items: Seq<WorkItem>, p: int) -> bool {
        forall|i: int| 0 <= i < items.len() ==> self.item_for(#[trigger] items[i], p)
    }

    /// Whether frame `c` may be on top of the transaction stack of thread
    /// `t`: the thread sent it, or it was sent to the thread's process.
    pub open spec fn frame_of(self, c: Option<TxnId>, t: int) -> bool {
        c.is_some() ==> self.txns[c.unwrap() as int].from == t || self.txns[c.unwrap() as int].to
            == self.threads[t].process
    }

    /// The queue of thread `t` holds only transactions sent to its
    /// process, and its current frame is one it sent or one sent to its process.
    pub open spec fn thread_routed(self, t: int) -> bool {
        &&& self.items_for(self.threads[t].work_list, self.threads[t].process as int)
        &&& self.frame_of(self.threads[t].current_transaction, t)
    }

    /// The threads of a list belong to process `p`.
    pub open spec fn threads_of(self, ts: Seq<usize>, p: int) -> bool {
        forall|i: int| 0 <= i < ts.len() ==> self.threads[(#[trigger] ts[i]) as int].process == p
    }

    /// The queue of process `p` holds only transactions sent to it, and
    /// the threads that wait for its work are its own.
    pub open spec fn proc_routed(self, p: int) -> bool {
        &&& self.items_for(self.procs[p].work, p)
        &&& self.threads_of(self.procs[p].ready_threads, p)
    }

    /// The transactions of a list were sent to process `p`.
    pub open spec fn txns_to(self, ts: Seq<TxnId>, p: int) -> bool {
        forall|i: int| 0 <= i < ts.len() ==> self.txns[(#[trigger] ts[i]) as int].to == p
    }

    /// The one-way transactions that wait on node `n` were sent to its owner.
    pub open spec fn node_routed(self, n: int) -> bool {
        self.txns_to(self.nodes[n].oneway_todo, self.nodes[n].owner as int)
    }

    /// The frame below transaction `c` was, when `c` was sent, a frame
    /// that its sender could have on top of its stack; and `c` was sent
    /// to the owner of its target.
    pub open spec fn txn_routed(self, c: int) -> bool {
        &&& self.frame_of(self.txns[c].stack_next, self.txns[c].from as int)
        &&& self.txns[c].target_node.is_some() ==> self.nodes[self.txns[c].target_node.unwrap() as int].owner
            == self.txns[c].to
    }

    /// Transactions are where they belong: in queues of the process they
    /// were sent to, and on stacks of threads that sent them or serve them.
    #[verifier::opaque]
    pub open spec fn routed(self) -> bool {
        &&& forall|t: int| 0 <= t < self.threads.len() ==> #[trigger] self.thread_routed(t)
        &&& forall|p: int| 0 <= p < self.procs.len() ==> #[trigger] self.proc_routed(p)
        &&& forall|n: int| 0 <= n < self.nodes.len() ==> #[trigger] self.node_routed(n)
        &&& forall|c: int| 0 <= c < self.txns.len() ==> #[trigger] self.txn_routed(c)
    }

    /// No two registered contexts have the same name.
    pub open spec fn names_unique(self) -> bool {
        forall|i: int, j: int|
            0 <= i < j < self.context_list.len() ==> self.contexts[(
            #[trigger] self.context_list[i]) as int].name != self.contexts[(
            #[trigger] self.context_list[j]) as int].name
    }

    /// Whether a registered context has this name.
    pub open spec fn name_registered(self, name: Seq<u8>) -> bool {
        exists|i: int|
            0 <= i < self.context_list.len() && self.contexts[(
            #[trigger] self.context_list[i]) as int].name == name
    }

    /// An engine without any object.
    pub open spec fn empty() -> BinderView {
        BinderView {
            contexts: Seq::empty(),
            context_list: Seq::empty(),
            procs: Seq::empty(),
            threads: Seq::empty(),
            nodes: Seq::empty(),
            deaths: Seq::empty(),
            txns: Seq::empty(),
        }
    }

    /// The engine with process `p` replaced.
    pub open spec fn with_proc(self, p: int, proc: ProcessView) -> BinderView {
        BinderView { procs: self.procs.update(p, proc), ..self }
    }

    /// The engine with thread `t` replaced.
    pub open spec fn with_thread(self, t: int, thread: ThreadView) -> BinderView {
        BinderView { threads: self.threads.update(t, thread), ..self }
    }

    /// The engine with node `n` replaced.
    pub open spec fn with_node(self, n: int, node: NodeView) -> BinderView {
        BinderView { nodes: self.nodes.update(n, node), ..self }
    }

    /// The engine with death subscription `d` replaced.
    pub open spec fn with_death(self, d: int, death: NodeDeath) -> BinderView {
        BinderView { deaths: self.deaths.update(d, death), ..self }
    }

    /// The engine with transaction `t` replaced.
    pub open spec fn with_txn(self, t: int, txn: TransactionView) -> BinderView {
        BinderView { txns: self.txns.update(t, txn), ..self }
    }

    /// The engine with context `c` replaced.
    pub open spec fn with_context(self, c: int, ctx: ContextView) -> BinderView {
        BinderView { contexts: self.contexts.update(c, ctx), ..self }
    }
}

impl Binder {
    /// An engine without any object.
    pub fn new() -> (r: Self)
        ensures
            r@ == BinderView::empty(),
            r@.wf(),
    {
        let r = Binder {
            contexts: Vec::new(),
            context_list: Vec::new(),
            procs: Vec::new(),
            threads: Vec::new(),
            nodes: Vec::new(),
            deaths: Vec::new(),
            txns: Vec::new(),
        };
        proof {
            assert(r@.contexts =~= Seq::empty());
            assert(r@.procs =~= Seq::empty());
            assert(r@.threads =~= Seq::empty());
            assert(r@.nodes =~= Seq::empty());
            assert(r@.txns =~= Seq::empty());
            assert(r@.deaths =~= Seq::empty());
            assert(r@.context_list =~= Seq::empty());
            reveal(BinderView::routed);
        }
        r
    }

    /// Mutable access to one context.
    pub fn context_mut(&mut self, c: usize) -> (r: &mut Context)
        requires
            c < old(self)@.contexts.len(),
        ensures
            r@ == old(self)@.contexts[c as int],
            final(self)@ == old(self)@.with_context(c as int, final(r)@),
            final(r)@ == r@ ==> final(self)@ == old(self)@,
    {
        proof {
            lemma_views_update(self.contexts@, c as int);
            assert(self@.contexts.update(c as int, self@.contexts[c as int]) =~= self@.contexts);
        }
        &mut self.contexts[c]
    }

    /// Mutable access to one process.
    pub fn proc_mut(&mut self, p: usize) -> (r: &mut Process)
        requires
            p < old(self)@.procs.len(),
        ensures
            r@ == old(self)@.procs[p as int],
            final(self)@ == old(self)@.with_proc(p as int, final(r)@),
            final(r)@ == r@ ==> final(self)@ == old(self)@,
    {
        proof {
            lemma_views_update(self.procs@, p as int);
            assert(self@.procs.update(p as int, self@.procs[p as int]) =~= self@.procs);
        }
        &mut self.procs[p]
    }

    /// Mutable access to one thread.
    pub fn thread_mut(&mut self, t: usize) -> (r: &mut Thread)
        requires
            t < old(self)@.threads.len(),
        ensures
            r@ == old(self)@.threads[t as int],
            final(self)@ == old(self)@.with_thread(t as int, final(r)@),
            final(r)@ == r@ ==> final(self)@ == old(self)@,
    {
        proof {
            lemma_views_update(self.threads@, t as int);
            assert(self@.threads.update(t as int, self@.threads[t as int]) =~= self@.threads);
        }
        &mut self.threads[t]
    }

    /// Mutable access to one node.
    pub fn node_mut(&mut self, n: usize) -> (r: &mut Node)
        requires
            n < old(self)@.nodes.len(),
        ensures
            r@ == old(self)@.nodes[n as int],
            final(self)@ == old(self)@.with_node(n as int, final(r)@),
            final(r)@ == r@ ==> final(self)@ == old(self)@,
    {
        proof {
            lemma_views_update(self.nodes@, n as int);
            assert(self@.nodes.update(n as int, self@.nodes[n as int]) =~= self@.nodes);
        }
        &mut self.nodes[n]
    }

    /// Mutable access to one death subscription.
    pub fn death_mut(&mut self, d: usize) -> (r: &mut NodeDeath)
        requires
            d < old(self)@.deaths.len(),
        ensures
            *r == old(self)@.deaths[d as int],
            final(self)@ == old(self)@.with_death(d as int, *final(r)),
            *final(r) == *r ==> final(self)@ == old(self)@,
    {
        proof {
            assert(self@.deaths.update(d as int, self@.deaths[d as int]) =~= self@.deaths);
        }
        &mut self.deaths[d]
    }

    /// Mutable access to one transaction.
    pub fn txn_mut(&mut self, t: usize) -> (r: &mut Transaction)
        requires
            t < old(self)@.txns.len(),
        ensures
            r@ == old(self)@.txns[t as int],
            final(self)@ == old(self)@.with_txn(t as int, final(r)@),
            final(r)@ == r@ ==> final(self)@ == old(self)@,
    {
        proof {
            lemma_views_update(self.txns@, t as int);
            assert(self@.txns.update(t as int, self@.txns[t as int]) =~= self@.txns);
        }
        &mut self.txns[t]
    }

    /// Adds a node to the arena and returns its index.
    pub fn push_node(&mut self, node: Node) -> (r: usize)
        requires
            old(self)@.wf(),
            node@.valid(old(self)@.push_node(node@).lens()),
            node@.global_id == old(self)@.nodes.len(),
            node@.oneway_todo.len() == 0,
        ensures
            r == old(self)@.nodes.len(),
            final(self)@ == old(self)@.push_node(node@),
            final(self)@.wf(),
            final(self)@.extends(old(self)@),
    {
        proof {
            lemma_views_push(self.nodes@, node);
            self@.lemma_push_node(node@);
        }
        self.nodes.push(node);
        self.nodes.len() - 1
    }

    /// Adds a thread to the arena and returns its index.
    pub fn push_thread(&mut self, thread: Thread) -> (r: usize)
        requires
            old(self)@.wf(),
            thread@.valid(old(self)@.push_thread(thread@).lens()),
            thread@.work_list.len() == 0,
            thread@.current_transaction.is_none(),
        ensures
            r == old(self)@.threads.len(),
            final(self)@ == old(self)@.push_thread(thread@),
            final(self)@.wf(),
            final(self)@.extends(old(self)@),
    {
        proof {
            lemma_views_push(self.threads@, thread);
            self@.lemma_push_thread(thread@);
        }
        self.threads.push(thread);
        self.threads.len() - 1
    }

    /// Adds a process to the arena and returns its index.
    pub fn push_proc(&mut self, proc: Process) -> (r: usize)
        requires
            old(self)@.wf(),
            proc@.valid(old(self)@.push_proc(proc@).lens()),
            proc@.work.len() == 0,
            proc@.ready_threads.len() == 0,
        ensures
            r == old(self)@.procs.len(),
            final(self)@ == old(self)@.push_proc(proc@),
            final(self)@.wf(),
            final(self)@.extends(old(self)@),
    {
        proof {
            lemma_views_push(self.procs@, proc);
            self@.lemma_push_proc(proc@);
        }
        self.procs.push(proc);
        self.procs.len() - 1
    }

    /// Adds a death subscription to the arena and returns its index.
    pub fn push_death(&mut self, death: NodeDeath) -> (r: usize)
        requires
            old(self)@.wf(),
            death.valid(old(self)@.push_death(death).lens()),
        ensures
            r == old(self)@.deaths.len(),
            final(self)@ == old(self)@.push_death(death),
            final(self)@.wf(),
            final(self)@.extends(old(self)@),
    {
        proof {
            self@.lemma_push_death(death);
        }
        self.deaths.push(death);
        self.deaths.len() - 1
    }

    /// Adds a transaction to the arena and returns its index.
    pub fn push_txn(&mut self, txn: Transaction) -> (r: usize)
        requires
            old(self)@.wf(),
            txn@.valid(old(self)@.push_txn(txn@).lens(), old(self)@.txns.len() as int),
            old(self)@.frame_of(txn@.stack_next, txn@.from as int),
            txn@.target_node.is_some() ==> old(self)@.nodes[txn@.target_node.unwrap() as int].owner
                == txn@.to,
        ensures
            r == old(self)@.txns.len(),
            final(self)@ == old(self)@.push_txn(txn@),
            final(self)@.wf(),
            final(self)@.extends(old(self)@),
    {
        proof {
            lemma_views_push(self.txns@, txn);
            self@.lemma_push_txn(txn@);
        }
        self.txns.push(txn);
        self.txns.len() - 1
    }

    /// Adds a context to the arena and returns its index.
    pub fn push_context(&mut self, context: Context) -> (r: usize)
        requires
            old(self)@.wf(),
            context@.valid(old(self)@.push_context(context@).lens()),
        ensures
            r == old(self)@.contexts.len(),
            final(self)@ == old(self)@.push_context(context@),
            final(self)@.wf(),
            final(self)@.extends(old(self)@),
    {
        proof {
            lemma_views_push(self.contexts@, context);
            self@.lemma_push_context(context@);
        }
        self.contexts.push(context);
        self.contexts.len() - 1
    }

    /// One process.
    pub fn proc(&self, p: usize) -> (r: &Process)
        requires
            p < self@.procs.len(),
        ensures
            r@ == self@.procs[p as int],
    {
        &self.procs[p]
    }

    /// One thread.
    pub fn thread(&self, t: usize) -> (r: &Thread)
        requires
            t < self@.threads.len(),
        ensures
            r@ == self@.threads[t as int],
    {
        &self.threads[t]
    }

    /// One node.
    pub fn node(&self, n: usize) -> (r: &Node)
        requires
            n < self@.nodes.len(),
        ensures
            r@ == self@.nodes[n as int],
    {
        &self.nodes[n]
    }

    /// One death subscription.
    pub fn death(&self, d: usize) -> (r: &NodeDeath)
        requires
            d < self@.deaths.len(),
        ensures
            *r == self@.deaths[d as int],
    {
        &self.deaths[d]
    }

    /// One transaction.
    pub fn txn(&self, t: usize) -> (r: &Transaction)
        requires
            t < self@.txns.len(),
        ensures
            r@ == self@.txns[t as int],
    {
        &self.txns[t]
    }

    /// One context.
    pub fn context(&self, c: usize) -> (r: &Context)
        requires
            c < self@.contexts.len(),
        ensures
            r@ == self@.contexts[c as int],
    {
        &self.contexts[c]
    }

    /// The sizes of the arenas: what an index must be below to name an object.
    pub fn sizes(&self) -> (r: (usize, usize, usize, usize, usize, usize))
        ensures
            r.0 == self@.contexts.len(),
            r.1 == self@.procs.len(),
            r.2 == self@.threads.len(),
            r.3 == self@.nodes.len(),
            r.4 == self@.deaths.len(),
            r.5 == self@.txns.len(),
    {
        (
            self.contexts.len(),
            self.procs.len(),
            self.threads.len(),
            self.nodes.len(),
            self.deaths.len(),
            self.txns.len(),
        )
    }
}

impl BinderView {
    /// The engine with one more node.
    pub open spec fn push_node(self, node: NodeView) -> BinderView {
        BinderView { nodes: self.nodes.push(node), ..self }
    }

    /// The engine with one more thread.
    pub open spec fn push_thread(self, thread: ThreadView) -> BinderView {
        BinderView { threads: self.threads.push(thread), ..self }
    }

    /// The engine with one more process.
    pub open spec fn push_proc(self, proc: ProcessView) -> BinderView {
        BinderView { procs: self.procs.push(proc), ..self }
    }

    /// The engine with one more death subscription.
    pub open spec fn push_death(self, death: NodeDeath) -> BinderView {
        BinderView { deaths: self.deaths.push(death), ..self }
    }

    /// The engine with one more transaction.
    pub open spec fn push_txn(self, txn: TransactionView) -> BinderView {
        BinderView { txns: self.txns.push(txn), ..self }
    }

    /// The engine with one more context.
    pub open spec fn push_context(self, ctx: ContextView) -> BinderView {
        BinderView { contexts: self.contexts.push(ctx), ..self }
    }

    /// Every object stays valid when arenas grow.
    pub proof fn lemma_valid_mono(self, l2: Lens)
        requires
            self.wf(),
            self.lens().le(l2),
        ensures
            forall|i: int| 0 <= i < self.contexts.len() ==> (#[trigger] self.contexts[i]).valid(l2),
            forall|i: int| 0 <= i < self.procs.len() ==> (#[trigger] self.procs[i]).valid(l2),
            forall|i: int| 0 <= i < self.threads.len() ==> (#[trigger] self.threads[i]).valid(l2),
            forall|i: int| 0 <= i < self.nodes.len() ==> (#[trigger] self.nodes[i]).valid(l2),
            forall|i: int| 0 <= i < self.deaths.len() ==> (#[trigger] self.deaths[i]).valid(l2),
            forall|i: int| 0 <= i < self.txns.len() ==> (#[trigger] self.txns[i]).valid(l2, i),
    {
        let l = self.lens();
        assert forall|i: int| 0 <= i < self.contexts.len() implies (
        #[trigger] self.contexts[i]).valid(l2) by {
            assert(self.contexts[i].valid(l));
        }
        assert forall|i: int| 0 <= i < self.procs.len() implies (#[trigger] self.procs[i]).valid(
            l2,
        ) by {
            let pr = self.procs[i];
            assert(pr.valid(l));
            assert(crate::defs::items_valid(pr.work, l2)) by {
                assert forall|k: int| 0 <= k < pr.work.len() implies (#[trigger] pr.work[k]).valid(
                    l2,
                ) by {
                    assert(pr.work[k].valid(l));
                }
            }
            if pr.mapping.is_some() {
                let m = pr.mapping.unwrap();
                assert(crate::process::slots_valid(m.slots, l2)) by {
                    assert forall|k: int|
                        0 <= k < m.slots.len() && (
                        #[trigger] m.slots[k]).info.is_some() implies m.slots[k].info.unwrap().valid(
                        l2,
                    ) by {
                        assert(m.slots[k].info.unwrap().valid(l));
                    }
                }
            }
            assert(crate::node_refs::rows_valid(pr.node_refs, l2)) by {
                assert forall|k: int| 0 <= k < pr.node_refs.len() implies (
                #[trigger] pr.node_refs[k]).info.node_ref.node < l2.nodes && (
                pr.node_refs[k].info.death.is_some() ==> pr.node_refs[k].info.death.unwrap()
                    < l2.deaths) by {
                    assert(pr.node_refs[k].info.node_ref.node < l.nodes);
                }
            }
        }
        assert forall|i: int| 0 <= i < self.threads.len() implies (#[trigger] self.threads[i]).valid(
            l2,
        ) by {
            let th = self.threads[i];
            assert(th.valid(l));
            assert forall|k: int| 0 <= k < th.work_list.len() implies (
            #[trigger] th.work_list[k]).valid(l2) by {
                assert(th.work_list[k].valid(l));
            }
        }
        assert forall|i: int| 0 <= i < self.nodes.len() implies (#[trigger] self.nodes[i]).valid(
            l2,
        ) by {
            assert(self.nodes[i].valid(l));
        }
        assert forall|i: int| 0 <= i < self.deaths.len() implies (#[trigger] self.deaths[i]).valid(
            l2,
        ) by {
            assert(self.deaths[i].valid(l));
        }
        assert forall|i: int| 0 <= i < self.txns.len() implies (#[trigger] self.txns[i]).valid(
            l2,
            i,
        ) by {
            assert(self.txns[i].valid(l, i));
        }
    }

    /// Adding a valid node whose global id is its place, and on which
    /// nothing waits, keeps the engine well-formed.
    pub proof fn lemma_push_node(self, node: NodeView)
        requires
            self.wf(),
            node.valid(self.push_node(node).lens()),
            node.global_id == self.nodes.len(),
            node.oneway_todo.len() == 0,
        ensures
            self.push_node(node).wf(),
    {
        reveal(BinderView::routed);
        let n = self.push_node(node);
        self.lemma_valid_mono(n.lens());
        assert forall|t: int| 0 <= t < n.threads.len() implies #[trigger] n.thread_routed(t) by {
            if t < self.threads.len() {
                assert(self.thread_routed(t));
            }
        }
        assert forall|p: int| 0 <= p < n.procs.len() implies #[trigger] n.proc_routed(p) by {
            if p < self.procs.len() {
                assert(self.proc_routed(p));
            }
        }
        assert forall|k: int| 0 <= k < n.nodes.len() implies #[trigger] n.node_routed(k) by {
            if k < self.nodes.len() {
                assert(self.node_routed(k));
            }
        }
        assert forall|c: int| 0 <= c < n.txns.len() implies #[trigger] n.txn_routed(c) by {
            if c < self.txns.len() {
                assert(self.txn_routed(c));
                assert(self.txns[c].valid(self.lens(), c));
            }
        }
    }

    /// Adding a valid thread with an empty queue and an empty stack keeps
    /// the engine well-formed.
    pub proof fn lemma_push_thread(self, thread: ThreadView)
        requires
            self.wf(),
            thread.valid(self.push_thread(thread).lens()),
            thread.work_list.len() == 0,
            thread.current_transaction.is_none(),
        ensures
            self.push_thread(thread).wf(),
    {
        reveal(BinderView::routed);
        let n = self.push_thread(thread);
        self.lemma_valid_mono(n.lens());
        assert forall|t: int| 0 <= t < n.threads.len() implies #[trigger] n.thread_routed(t) by {
            if t < self.threads.len() {
                assert(self.thread_routed(t));
            }
        }
        assert forall|p: int| 0 <= p < n.procs.len() implies #[trigger] n.proc_routed(p) by {
            if p < self.procs.len() {
                assert(self.proc_routed(p));
            }
        }
        assert forall|k: int| 0 <= k < n.nodes.len() implies #[trigger] n.node_routed(k) by {
            if k < self.nodes.len() {
                assert(self.node_routed(k));
            }
        }
        assert forall|c: int| 0 <= c < n.txns.len() implies #[trigger] n.txn_routed(c) by {
            if c < self.txns.len() {
                assert(self.txn_routed(c));
                assert(self.txns[c].valid(self.lens(), c));
            }
        }
    }

    /// Adding a valid process with an empty queue and no waiting thread
    /// keeps the engine well-formed.
    pub proof fn lemma_push_proc(self, proc: ProcessView)
        requires
            self.wf(),
            proc.valid(self.push_proc(proc).lens()),
            proc.work.len() == 0,
            proc.ready_threads.len() == 0,
        ensures
            self.push_proc(proc).wf(),
    {
        reveal(BinderView::routed);
        let n = self.push_proc(proc);
        self.lemma_valid_mono(n.lens());
        assert forall|t: int| 0 <= t < n.threads.len() implies #[trigger] n.thread_routed(t) by {
            if t < self.threads.len() {
                assert(self.thread_routed(t));
            }
        }
        assert forall|p: int| 0 <= p < n.procs.len() implies #[trigger] n.proc_routed(p) by {
            if p < self.procs.len() {
                assert(self.proc_routed(p));
            }
        }
        assert forall|k: int| 0 <= k < n.nodes.len() implies #[trigger] n.node_routed(k) by {
            if k < self.nodes.len() {
                assert(self.node_routed(k));
            }
        }
        assert forall|c: int| 0 <= c < n.txns.len() implies #[trigger] n.txn_routed(c) by {
            if c < self.txns.len() {
                assert(self.txn_routed(c));
                assert(self.txns[c].valid(self.lens(), c));
            }
        }
    }

    /// Adding a valid death subscription keeps the engine well-formed.
    pub proof fn lemma_push_death(self, death: NodeDeath)
        requires
            self.wf(),
            death.valid(self.push_death(death).lens()),
        ensures
            self.push_death(death).wf(),
    {
        reveal(BinderView::routed);
        let n = self.push_death(death);
        self.lemma_valid_mono(n.lens());
        assert forall|t: int| 0 <= t < n.threads.len() implies #[trigger] n.thread_routed(t) by {
            if t < self.threads.len() {
                assert(self.thread_routed(t));
            }
        }
        assert forall|p: int| 0 <= p < n.procs.len() implies #[trigger] n.proc_routed(p) by {
            if p < self.procs.len() {
                assert(self.proc_routed(p));
            }
        }
        assert forall|k: int| 0 <= k < n.nodes.len() implies #[trigger] n.node_routed(k) by {
            if k < self.nodes.len() {
                assert(self.node_routed(k));
            }
        }
        assert forall|c: int| 0 <= c < n.txns.len() implies #[trigger] n.txn_routed(c) by {
            if c < self.txns.len() {
                assert(self.txn_routed(c));
                assert(self.txns[c].valid(self.lens(), c));
            }
        }
    }

    /// Adding a valid transaction keeps the engine well-formed, if the
    /// frame below it is one that its sender may have on top of its stack
    /// and it is sent to the owner of its target.
    pub proof fn lemma_push_txn(self, txn: TransactionView)
        requires
            self.wf(),
            txn.valid(self.push_txn(txn).lens(), self.txns.len() as int),
            self.frame_of(txn.stack_next, txn.from as int),
            txn.target_node.is_some() ==> self.nodes[txn.target_node.unwrap() as int].owner == txn.to,
        ensures
            self.push_txn(txn).wf(),
    {
        reveal(BinderView::routed);
        let n = self.push_txn(txn);
        self.lemma_valid_mono(n.lens());
        assert forall|t: int| 0 <= t < n.threads.len() implies #[trigger] n.thread_routed(t) by {
            assert(self.thread_routed(t));
            assert(self.threads[t].valid(self.lens()));
            let wl = self.threads[t].work_list;
            assert forall|i: int| 0 <= i < wl.len() implies n.item_for(
                #[trigger] wl[i],
                self.threads[t].process as int,
            ) by {
                assert(self.item_for(wl[i], self.threads[t].process as int));
                assert(wl[i].valid(self.lens()));
            }
        }
        assert forall|p: int| 0 <= p < n.procs.len() implies #[trigger] n.proc_routed(p) by {
            assert(self.proc_routed(p));
            assert(self.procs[p].valid(self.lens()));
            let wl = self.procs[p].work;
            assert forall|i: int| 0 <= i < wl.len() implies n.item_for(#[trigger] wl[i], p) by {
                assert(self.item_for(wl[i], p));
                assert(wl[i].valid(self.lens()));
            }
        }
        assert forall|k: int| 0 <= k < n.nodes.len() implies #[trigger] n.node_routed(k) by {
            assert(self.node_routed(k));
            assert(self.nodes[k].valid(self.lens()));
            let q = self.nodes[k].oneway_todo;
            assert forall|i: int| 0 <= i < q.len() implies n.txns[(#[trigger] q[i]) as int].to
                == self.nodes[k].owner by {
                assert(self.txns[q[i] as int].to == self.nodes[k].owner);
            }
        }
        assert forall|c: int| 0 <= c < n.txns.len() implies #[trigger] n.txn_routed(c) by {
            if c < self.txns.len() {
                assert(self.txn_routed(c));
                assert(self.txns[c].valid(self.lens(), c));
            }
        }
    }

    /// Adding a valid context keeps the engine well-formed.
    pub proof fn lemma_push_context(self, ctx: ContextView)
        requires
            self.wf(),
            ctx.valid(self.push_context(ctx).lens()),
        ensures
            self.push_context(ctx).wf(),
    {
        reveal(BinderView::routed);
        let n = self.push_context(ctx);
        self.lemma_valid_mono(n.lens());
        assert forall|t: int| 0 <= t < n.threads.len() implies #[trigger] n.thread_routed(t) by {
            if t < self.threads.len() {
                assert(self.thread_routed(t));
            }
        }
        assert forall|p: int| 0 <= p < n.procs.len() implies #[trigger] n.proc_routed(p) by {
            if p < self.procs.len() {
                assert(self.proc_routed(p));
            }
        }
        assert forall|k: int| 0 <= k < n.nodes.len() implies #[trigger] n.node_routed(k) by {
            if k < self.nodes.len() {
                assert(self.node_routed(k));
            }
        }
        assert forall|c: int| 0 <= c < n.txns.len() implies #[trigger] n.txn_routed(c) by {
            if c < self.txns.len() {
                assert(self.txn_routed(c));
                assert(self.txns[c].valid(self.lens(), c));
            }
        }
    }

    /// Whether this engine can have come from `old`: arenas only grow,
    /// and what identifies an object never changes: the process of a
    /// thread, the owner of a node, and the sender, the recipient, the
    /// target and the frame below of a transaction.
    pub open spec fn extends(self, old: BinderView) -> bool {
        &&& old.lens().le(self.lens())
        &&& forall|t: int|
            0 <= t < old.threads.len() ==> (#[trigger] self.threads[t]).process
                == old.threads[t].process
        &&& forall|n: int|
            0 <= n < old.nodes.len() ==> (#[trigger] self.nodes[n]).owner == old.nodes[n].owner
        &&& forall|c: int|
            0 <= c < old.txns.len() ==> (#[trigger] self.txns[c]).from == old.txns[c].from
                && self.txns[c].to == old.txns[c].to && self.txns[c].stack_next
                == old.txns[c].stack_next && self.txns[c].target_node == old.txns[c].target_node
    }

    /// Whether nothing of the processes of `old` came back: a process
    /// that was dead is dead, one without an arena has none, and a handle,
    /// thread or node table that was empty is empty.
    pub open spec fn stays_down(self, old: BinderView) -> bool {
        forall|q: int|
            0 <= q < old.procs.len() ==> {
                let now = #[trigger] self.procs[q];
                let was = old.procs[q];
                &&& was.is_dead ==> now.is_dead
                &&& was.mapping.is_none() ==> now.mapping.is_none()
                &&& was.node_refs.len() == 0 ==> now.node_refs.len() == 0
                &&& was.threads.len() == 0 ==> now.threads.len() == 0
                &&& was.nodes.len() == 0 ==> now.nodes.len() == 0
            }
    }

    /// Whether every node of `old` has the one-way queue and the pending
    /// flag that it had.
    pub open spec fn same_oneway(self, old: BinderView) -> bool {
        forall|n: int|
            0 <= n < old.nodes.len() ==> (#[trigger] self.nodes[n]).oneway_todo
                == old.nodes[n].oneway_todo && self.nodes[n].has_pending_oneway_todo
                == old.nodes[n].has_pending_oneway_todo
    }

    /// An engine with the same threads, processes, nodes and transactions
    /// as a routed one is routed.
    pub proof fn lemma_routed_same(self, other: BinderView)
        requires
            self.routed(),
            other.threads == self.threads,
            other.procs == self.procs,
            other.nodes == self.nodes,
            other.txns == self.txns,
        ensures
            other.routed(),
    {
        reveal(BinderView::routed);
        assert forall|t: int| 0 <= t < other.threads.len() implies #[trigger] other.thread_routed(
            t,
        ) by {
            assert(self.thread_routed(t));
        }
        assert forall|p: int| 0 <= p < other.procs.len() implies #[trigger] other.proc_routed(p) by {
            assert(self.proc_routed(p));
        }
        assert forall|k: int| 0 <= k < other.nodes.len() implies #[trigger] other.node_routed(k) by {
            assert(self.node_routed(k));
        }
        assert forall|c: int| 0 <= c < other.txns.len() implies #[trigger] other.txn_routed(c) by {
            assert(self.txn_routed(c));
        }
    }

    /// What is in the queues and on the stack of a well-formed engine is
    /// where it belongs.
    pub proof fn lemma_routed(self)
        requires
            self.wf(),
        ensures
            forall|t: int| 0 <= t < self.threads.len() ==> #[trigger] self.thread_routed(t),
            forall|p: int| 0 <= p < self.procs.len() ==> #[trigger] self.proc_routed(p),
            forall|n: int| 0 <= n < self.nodes.len() ==> #[trigger] self.node_routed(n),
            forall|c: int| 0 <= c < self.txns.len() ==> #[trigger] self.txn_routed(c),
    {
        reveal(BinderView::routed);
    }

    /// Appending an item that belongs to a process, and dropping the first
    /// item, keep a queue holding only what belongs to the process.
    pub proof fn lemma_items_for_ops(self, items: Seq<WorkItem>, p: int, x: WorkItem)
        requires
            self.items_for(items, p),
        ensures
            self.item_for(x, p) ==> self.items_for(items.push(x), p),
            items.len() > 0 ==> self.items_for(items.drop_first(), p) && self.item_for(items[0], p),
            self.items_for(Seq::<WorkItem>::empty(), p),
    {
        if self.item_for(x, p) {
            assert forall|i: int| 0 <= i < items.push(x).len() implies self.item_for(
                #[trigger] items.push(x)[i],
                p,
            ) by {
                if i < items.len() {
                    assert(items.push(x)[i] == items[i]);
                }
            }
        }
        if items.len() > 0 {
            assert forall|i: int| 0 <= i < items.drop_first().len() implies self.item_for(
                #[trigger] items.drop_first()[i],
                p,
            ) by {
                assert(items.drop_first()[i] == items[i + 1]);
            }
        }
    }

    /// Appending a thread of a process, dropping the first thread and
    /// taking a thread out keep a list holding only threads of the process.
    pub proof fn lemma_threads_of_ops(self, ts: Seq<usize>, p: int, x: usize)
        requires
            self.threads_of(ts, p),
        ensures
            self.threads[x as int].process == p ==> self.threads_of(ts.push(x), p),
            ts.len() > 0 ==> self.threads_of(ts.drop_first(), p) && self.threads[ts[0] as int].process
                == p,
            self.threads_of(crate::lists::without(ts, x), p),
    {
        if self.threads[x as int].process == p {
            assert forall|i: int| 0 <= i < ts.push(x).len() implies self.threads[(
            #[trigger] ts.push(x)[i]) as int].process == p by {
                if i < ts.len() {
                    assert(ts.push(x)[i] == ts[i]);
                }
            }
        }
        if ts.len() > 0 {
            assert forall|i: int| 0 <= i < ts.drop_first().len() implies self.threads[(
            #[trigger] ts.drop_first()[i]) as int].process == p by {
                assert(ts.drop_first()[i] == ts[i + 1]);
            }
        }
        crate::lists::lemma_position(ts, x, 0);
        let k = crate::lists::position(ts, x, 0);
        let w = crate::lists::without(ts, x);
        assert forall|i: int| 0 <= i < w.len() implies self.threads[(#[trigger] w[i]) as int].process
            == p by {
            if k < ts.len() {
                let oi = if i < k { i } else { i + 1 };
                assert(w[i] == ts[oi]);
            }
        }
    }

    /// Appending a transaction sent to a process, and dropping the first
    /// one, keep a list holding only transactions sent to the process.
    pub proof fn lemma_txns_to_ops(self, ts: Seq<TxnId>, p: int, x: TxnId)
        requires
            self.txns_to(ts, p),
        ensures
            self.txns[x as int].to == p ==> self.txns_to(ts.push(x), p),
            ts.len() > 0 ==> self.txns_to(ts.drop_first(), p) && self.txns[ts[0] as int].to == p,
            self.txns_to(Seq::<TxnId>::empty(), p),
    {
        if self.txns[x as int].to == p {
            assert forall|i: int| 0 <= i < ts.push(x).len() implies self.txns[(
            #[trigger] ts.push(x)[i]) as int].to == p by {
                if i < ts.len() {
                    assert(ts.push(x)[i] == ts[i]);
                }
            }
        }
        if ts.len() > 0 {
            assert forall|i: int| 0 <= i < ts.drop_first().len() implies self.txns[(
            #[trigger] ts.drop_first()[i]) as int].to == p by {
                assert(ts.drop_first()[i] == ts[i + 1]);
            }
        }
    }

    /// Replacing a process by a valid one keeps the engine well-formed, if
    /// its queue and its list of waiting threads are as before or hold
    /// only what belongs to it.
    pub proof fn lemma_with_proc(self, p: int, proc: ProcessView)
        requires
            self.wf(),
            0 <= p < self.procs.len(),
            proc.valid(self.lens()),
            proc.work == self.procs[p].work || self.items_for(proc.work, p),
            proc.ready_threads == self.procs[p].ready_threads || self.threads_of(
                proc.ready_threads,
                p,
            ),
        ensures
            self.with_proc(p, proc).wf(),
            self.with_proc(p, proc).lens() == self.lens(),
    {
        reveal(BinderView::routed);
        let n = self.with_proc(p, proc);
        assert(n.lens() == self.lens());
        assert forall|i: int| 0 <= i < n.procs.len() implies (#[trigger] n.procs[i]).valid(
            n.lens(),
        ) by {
            if i != p {
                assert(self.procs[i].valid(self.lens()));
            }
        }
        assert(self.proc_routed(p));
        assert forall|t: int| 0 <= t < n.threads.len() implies #[trigger] n.thread_routed(t) by {
            if t < self.threads.len() {
                assert(self.thread_routed(t));
            }
        }
        assert forall|p: int| 0 <= p < n.procs.len() implies #[trigger] n.proc_routed(p) by {
            assert(self.proc_routed(p));
        }
        assert forall|k: int| 0 <= k < n.nodes.len() implies #[trigger] n.node_routed(k) by {
            if k < self.nodes.len() {
                assert(self.node_routed(k));
            }
        }
        assert forall|c: int| 0 <= c < n.txns.len() implies #[trigger] n.txn_routed(c) by {
            if c < self.txns.len() {
                assert(self.txn_routed(c));
                assert(self.txns[c].valid(self.lens(), c));
            }
        }
    }

    /// Replacing a thread by a valid one of the same process keeps the
    /// engine well-formed, if its queue is as before or holds only what
    /// belongs to its process, and its current frame is as before or one
    /// that it sent or that was sent to its process.
    pub proof fn lemma_with_thread(self, t: int, thread: ThreadView)
        requires
            self.wf(),
            0 <= t < self.threads.len(),
            thread.valid(self.lens()),
            thread.process == self.threads[t].process,
            thread.work_list == self.threads[t].work_list || self.items_for(
                thread.work_list,
                thread.process as int,
            ),
            thread.current_transaction == self.threads[t].current_transaction || self.frame_of(
                thread.current_transaction,
                t,
            ),
        ensures
            self.with_thread(t, thread).wf(),
            self.with_thread(t, thread).lens() == self.lens(),
    {
        reveal(BinderView::routed);
        let n = self.with_thread(t, thread);
        assert(n.lens() == self.lens());
        assert forall|i: int| 0 <= i < n.threads.len() implies (#[trigger] n.threads[i]).valid(
            n.lens(),
        ) by {
            if i != t {
                assert(self.threads[i].valid(self.lens()));
            }
        }
        assert(self.thread_routed(t));
        assert forall|u: int| 0 <= u < n.threads.len() implies #[trigger] n.thread_routed(u) by {
            assert(self.thread_routed(u));
        }
        assert forall|p: int| 0 <= p < n.procs.len() implies #[trigger] n.proc_routed(p) by {
            assert(self.proc_routed(p));
            let rt = self.procs[p].ready_threads;
            assert forall|i: int| 0 <= i < rt.len() implies n.threads[(#[trigger] rt[i]) as int].process
                == p by {
                assert(self.threads[rt[i] as int].process == p);
            }
        }
        assert forall|k: int| 0 <= k < n.nodes.len() implies #[trigger] n.node_routed(k) by {
            assert(self.node_routed(k));
        }
        assert forall|c: int| 0 <= c < n.txns.len() implies #[trigger] n.txn_routed(c) by {
            assert(self.txn_routed(c));
        }
    }

    /// Replacing a node by a valid one with the same global id and the
    /// same owner keeps the engine well-formed, if its one-way queue is as
    /// before or holds only transactions sent to its owner.
    pub proof fn lemma_with_node(self, n: int, node: NodeView)
        requires
            self.wf(),
            0 <= n < self.nodes.len(),
            node.valid(self.lens()),
            node.global_id == n,
            node.owner == self.nodes[n].owner,
            node.oneway_todo == self.nodes[n].oneway_todo || self.txns_to(
                node.oneway_todo,
                node.owner as int,
            ),
        ensures
            self.with_node(n, node).wf(),
            self.with_node(n, node).lens() == self.lens(),
    {
        reveal(BinderView::routed);
        let s = self.with_node(n, node);
        assert(s.lens() == self.lens());
        assert forall|i: int| 0 <= i < s.nodes.len() implies (#[trigger] s.nodes[i]).valid(
            s.lens(),
        ) && s.nodes[i].global_id == i by {
            if i != n {
                assert(self.nodes[i].valid(self.lens()));
            }
        }
        assert(self.node_routed(n));
        assert forall|u: int| 0 <= u < s.threads.len() implies #[trigger] s.thread_routed(u) by {
            assert(self.thread_routed(u));
        }
        assert forall|p: int| 0 <= p < s.procs.len() implies #[trigger] s.proc_routed(p) by {
            assert(self.proc_routed(p));
        }
        assert forall|k: int| 0 <= k < s.nodes.len() implies #[trigger] s.node_routed(k) by {
            assert(self.node_routed(k));
        }
        assert forall|c: int| 0 <= c < s.txns.len() implies #[trigger] s.txn_routed(c) by {
            assert(self.txn_routed(c));
        }
    }

    /// Replacing a death subscription by a valid one keeps the engine well-formed.
    pub proof fn lemma_with_death(self, d: int, death: NodeDeath)
        requires
            self.wf(),
            0 <= d < self.deaths.len(),
            death.valid(self.lens()),
        ensures
            self.with_death(d, death).wf(),
            self.with_death(d, death).lens() == self.lens(),
    {
        reveal(BinderView::routed);
        let n = self.with_death(d, death);
        assert(n.lens() == self.lens());
        assert forall|i: int| 0 <= i < n.deaths.len() implies (#[trigger] n.deaths[i]).valid(
            n.lens(),
        ) by {
            if i != d {
                assert(self.deaths[i].valid(self.lens()));
            }
        }
        assert forall|t: int| 0 <= t < n.threads.len() implies #[trigger] n.thread_routed(t) by {
            if t < self.threads.len() {
                assert(self.thread_routed(t));
            }
        }
        assert forall|p: int| 0 <= p < n.procs.len() implies #[trigger] n.proc_routed(p) by {
            if p < self.procs.len() {
                assert(self.proc_routed(p));
            }
        }
        assert forall|k: int| 0 <= k < n.nodes.len() implies #[trigger] n.node_routed(k) by {
            if k < self.nodes.len() {
                assert(self.node_routed(k));
            }
        }
        assert forall|c: int| 0 <= c < n.txns.len() implies #[trigger] n.txn_routed(c) by {
            if c < self.txns.len() {
                assert(self.txn_routed(c));
                assert(self.txns[c].valid(self.lens(), c));
            }
        }
    }

    /// Replacing a transaction by a valid one with the same sender,
    /// recipient, target and frame below keeps the engine well-formed.
    pub proof fn lemma_with_txn(self, t: int, txn: TransactionView)
        requires
            self.wf(),
            0 <= t < self.txns.len(),
            txn.valid(self.lens(), t),
            txn.from == self.txns[t].from,
            txn.to == self.txns[t].to,
            txn.stack_next == self.txns[t].stack_next,
            txn.target_node == self.txns[t].target_node,
        ensures
            self.with_txn(t, txn).wf(),
            self.with_txn(t, txn).lens() == self.lens(),
    {
        reveal(BinderView::routed);
        let n = self.with_txn(t, txn);
        assert(n.lens() == self.lens());
        assert forall|i: int| 0 <= i < n.txns.len() implies (#[trigger] n.txns[i]).valid(
            n.lens(),
            i,
        ) by {
            if i != t {
                assert(self.txns[i].valid(self.lens(), i));
            }
        }
        assert forall|u: int| 0 <= u < n.threads.len() implies #[trigger] n.thread_routed(u) by {
            assert(self.thread_routed(u));
            let wl = self.threads[u].work_list;
            assert forall|i: int| 0 <= i < wl.len() implies n.item_for(
                #[trigger] wl[i],
                self.threads[u].process as int,
            ) by {
                assert(self.item_for(wl[i], self.threads[u].process as int));
            }
        }
        assert forall|p: int| 0 <= p < n.procs.len() implies #[trigger] n.proc_routed(p) by {
            assert(self.proc_routed(p));
            let wl = self.procs[p].work;
            assert forall|i: int| 0 <= i < wl.len() implies n.item_for(#[trigger] wl[i], p) by {
                assert(self.item_for(wl[i], p));
            }
        }
        assert forall|k: int| 0 <= k < n.nodes.len() implies #[trigger] n.node_routed(k) by {
            assert(self.node_routed(k));
            let q = self.nodes[k].oneway_todo;
            assert forall|i: int| 0 <= i < q.len() implies n.txns[(#[trigger] q[i]) as int].to
                == self.nodes[k].owner by {
                assert(self.txns[q[i] as int].to == self.nodes[k].owner);
            }
        }
        assert forall|c: int| 0 <= c < n.txns.len() implies #[trigger] n.txn_routed(c) by {
            assert(self.txn_routed(c));
        }
    }

    /// Replacing a context by a valid one of the same name keeps the
    /// engine well-formed.
    pub proof fn lemma_with_context(self, c: int, ctx: ContextView)
        requires
            self.wf(),
            0 <= c < self.contexts.len(),
            ctx.valid(self.lens()),
            ctx.name == self.contexts[c].name,
        ensures
            self.with_context(c, ctx).wf(),
            self.with_context(c, ctx).lens() == self.lens(),
    {
        reveal(BinderView::routed);
        let n = self.with_context(c, ctx);
        assert(n.lens() == self.lens());
        assert forall|i: int| 0 <= i < n.contexts.len() implies (#[trigger] n.contexts[i]).valid(
            n.lens(),
        ) by {
            if i != c {
                assert(self.contexts[i].valid(self.lens()));
            }
        }
        assert forall|t: int| 0 <= t < n.threads.len() implies #[trigger] n.thread_routed(t) by {
            if t < self.threads.len() {
                assert(self.thread_routed(t));
            }
        }
        assert forall|p: int| 0 <= p < n.procs.len() implies #[trigger] n.proc_routed(p) by {
            if p < self.procs.len() {
                assert(self.proc_routed(p));
            }
        }
        assert forall|k: int| 0 <= k < n.nodes.len() implies #[trigger] n.node_routed(k) by {
            if k < self.nodes.len() {
                assert(self.node_routed(k));
            }
        }
        assert forall|x: int| 0 <= x < n.txns.len() implies #[trigger] n.txn_routed(x) by {
            assert(self.txn_routed(x));
        }
    }
}

} // verus!

//! The per-thread dispatch state: looper lifecycle, work queue, the slot for
//! return commands and the top of the transaction stack.

use vstd::prelude::*;
use std::collections::VecDeque;
use crate::defs::{items_valid, Lens, ProcId, TxnId, WorkItem};

verus! {

/// Where a thread is in its life as a member of the process's thread pool.
#[derive(Clone, Copy, Debug, PartialEq, Eq, Structural)]
pub struct LooperState {
    /// The thread joined the pool because the engine asked for one.
    pub registered: bool,
    /// The thread joined the pool of its own accord.
    pub entered: bool,
    /// The thread left the pool.
    pub exited: bool,
    /// The thread broke the protocol: it joined twice, or unasked.
    pub invalid: bool,
    /// The thread is blocked waiting for work.
    pub waiting: bool,
}

impl LooperState {
    /// A thread that has not joined the pool.
    pub open spec fn idle() -> LooperState {
        LooperState {
            registered: false,
            entered: false,
            exited: false,
            invalid: false,
            waiting: false,
        }
    }

    /// The thread is a member of the pool.
    pub open spec fn is_looper(self) -> bool {
        self.entered || self.registered
    }

    /// The state after `BC_ENTER_LOOPER`.
    pub open spec fn entered_spec(self) -> LooperState {
        LooperState { entered: true, invalid: self.invalid || self.registered, ..self }
    }

    /// The state after `BC_REGISTER_LOOPER`; `valid` says whether the engine
    /// had asked for a thread.
    pub open spec fn registered_spec(self, valid: bool) -> LooperState {
        LooperState { registered: true, invalid: self.invalid || !valid || self.entered, ..self }
    }

    /// The state after `BC_EXIT_LOOPER`.
    pub open spec fn exited_spec(self) -> LooperState {
        LooperState { exited: true, ..self }
    }
}

pub struct Thread {
    /// The id of the task that this thread stands for.
    pub id: i32,
    pub process: ProcId,
    pub looper: LooperState,
    /// The thread must return to userspace instead of waiting for work.
    pub looper_need_return: bool,
    pub is_dead: bool,
    /// A return command to write before any queued work.
    pub return_work: Option<u32>,
    /// The work queue holds something that the thread should deliver now;
    /// deferred work alone does not set it.
    pub process_work_list: bool,
    pub work_list: VecDeque<WorkItem>,
    /// The top of the transaction stack.
    pub current_transaction: Option<TxnId>,
}

/// A thread as a mathematical value.
pub struct ThreadView {
    pub id: i32,
    pub process: ProcId,
    pub looper: LooperState,
    pub looper_need_return: bool,
    pub is_dead: bool,
    pub return_work: Option<u32>,
    pub process_work_list: bool,
    pub work_list: Seq<WorkItem>,
    pub current_transaction: Option<TxnId>,
}

impl View for Thread {
    type V = ThreadView;

    open spec fn view(&self) -> ThreadView {
        ThreadView {
            id: self.id,
            process: self.process,
            looper: self.looper,
            looper_need_return: self.looper_need_return,
            is_dead: self.is_dead,
            return_work: self.return_work,
            process_work_list: self.process_work_list,
            work_list: self.work_list@,
            current_transaction: self.current_transaction,
        }
    }
}

impl ThreadView {
    /// Every object that the thread names exists.
    pub open spec fn valid(self, l: Lens) -> bool {
        &&& self.process < l.procs
        &&& items_valid(self.work_list, l)
        &&& self.current_transaction.is_some() ==> self.current_transaction.unwrap() < l.txns
    }

    /// A fresh thread: outside the pool, with nothing queued, and due to
    /// return to userspace after its first call.
    pub open spec fn fresh(id: i32, process: ProcId) -> ThreadView {
        ThreadView {
            id,
            process,
            looper: LooperState::idle(),
            looper_need_return: true,
            is_dead: false,
            return_work: None,
            process_work_list: false,
            work_list: Seq::empty(),
            current_transaction: None,
        }
    }

    /// A thread takes work from its process's queue only while it is in the
    /// pool and serves no transaction: work for a thread inside a call chain
    /// always comes to the thread itself.
    pub open spec fn uses_process_queue(self) -> bool {
        self.current_transaction.is_none() && self.looper.is_looper()
    }

    /// The thread after `push_work`: a live thread queues the item for
    /// delivery now, a dead one takes nothing.
    pub open spec fn push_work(self, work: WorkItem) -> ThreadView {
        if self.is_dead {
            self
        } else {
            ThreadView { work_list: self.work_list.push(work), process_work_list: true, ..self }
        }
    }

    /// The thread after `push_work_deferred`.
    pub open spec fn push_work_deferred(self, work: WorkItem) -> ThreadView {
        ThreadView { work_list: self.work_list.push(work), ..self }
    }

    /// What `pop_work` returns: the oldest item if the queue is due for delivery.
    pub open spec fn next_work(self) -> Option<WorkItem> {
        if self.process_work_list && self.work_list.len() > 0 {
            Some(self.work_list[0])
        } else {
            None
        }
    }

    /// The thread after `pop_work`.
    pub open spec fn pop_work(self) -> ThreadView {
        if self.process_work_list && self.work_list.len() > 0 {
            ThreadView {
                work_list: self.work_list.drop_first(),
                process_work_list: self.work_list.len() > 1,
                ..self
            }
        } else {
            ThreadView { process_work_list: false, ..self }
        }
    }

    /// Work comes out of a thread's queue in the order in which it went in.
    pub proof fn lemma_fifo(self, a: WorkItem, b: WorkItem)
        requires
            !self.is_dead,
            self.work_list.len() == 0,
        ensures
            self.push_work(a).push_work(b).next_work() == Some(a),
            self.push_work(a).push_work(b).pop_work().next_work() == Some(b),
            self.push_work(a).push_work(b).pop_work().pop_work().next_work().is_none(),
    {
        let s = self.push_work(a).push_work(b);
        assert(s.work_list[0] == a);
        assert(s.pop_work().work_list =~= seq![b]);
    }
}

impl Thread {
    pub fn new(id: i32, process: ProcId) -> (r: Self)
        ensures
            r@ == ThreadView::fresh(id, process),
    {
        Thread {
            id,
            process,
            looper: LooperState {
                registered: false,
                entered: false,
                exited: false,
                invalid: false,
                waiting: false,
            },
            looper_need_return: true,
            is_dead: false,
            return_work: None,
            process_work_list: false,
            work_list: VecDeque::new(),
            current_transaction: None,
        }
    }

    pub fn looper_enter(&mut self)
        ensures
            final(self)@ == (ThreadView { looper: old(self)@.looper.entered_spec(), ..old(self)@ }),
    {
        self.looper.entered = true;
        if self.looper.registered {
            self.looper.invalid = true;
        }
    }

    pub fn looper_register(&mut self, valid: bool)
        ensures
            final(self)@ == (ThreadView {
                looper: old(self)@.looper.registered_spec(valid),
                ..old(self)@
            }),
    {
        self.looper.registered = true;
        if !valid || self.looper.entered {
            self.looper.invalid = true;
        }
    }

    pub fn looper_exit(&mut self)
        ensures
            final(self)@ == (ThreadView { looper: old(self)@.looper.exited_spec(), ..old(self)@ }),
    {
        self.looper.exited = true;
    }

    /// Whether the thread is a member of the pool.
    pub fn is_looper(&self) -> (r: bool)
        ensures
            r == self@.looper.is_looper(),
    {
        self.looper.entered || self.looper.registered
    }

    pub fn should_use_process_work_queue(&self) -> (r: bool)
        ensures
            r == self@.uses_process_queue(),
    {
        self.current_transaction.is_none() && self.is_looper()
    }

    /// Queues work for delivery now and says whether the thread took it: a
    /// dead thread takes nothing.
    pub fn push_work(&mut self, work: WorkItem) -> (accepted: bool)
        ensures
            final(self)@ == old(self)@.push_work(work),
            accepted == !old(self)@.is_dead,
    {
        if self.is_dead {
            return false;
        }
        self.work_list.push_back(work);
        self.process_work_list = true;
        true
    }

    /// Queues work that is delivered only once something else makes the
    /// thread look at its queue.
    pub fn push_work_deferred(&mut self, work: WorkItem)
        ensures
            final(self)@ == old(self)@.push_work_deferred(work),
    {
        self.work_list.push_back(work);
    }

    /// Takes the oldest item if the queue is due for delivery.
    pub fn pop_work(&mut self) -> (r: Option<WorkItem>)
        ensures
            final(self)@ == old(self)@.pop_work(),
            r == old(self)@.next_work(),
    {
        if !self.process_work_list {
            return None;
        }
        let r = self.work_list.pop_front();
        self.process_work_list = self.work_list.len() > 0;
        r
    }

    /// Puts a return command in the slot that is written before queued work.
    pub fn push_return_work(&mut self, code: u32)
        ensures
            final(self)@ == (ThreadView { return_work: Some(code), ..old(self)@ }),
    {
        self.return_work = Some(code);
    }

    /// Empties the slot for return commands.
    pub fn take_return_work(&mut self) -> (r: Option<u32>)
        ensures
            r == old(self)@.return_work,
            final(self)@ == (ThreadView { return_work: None, ..old(self)@ }),
    {
        self.return_work.take()
    }

    /// Makes `transaction` the top of the transaction stack.
    pub fn set_current_transaction(&mut self, transaction: Option<TxnId>)
        ensures
            final(self)@ == (ThreadView { current_transaction: transaction, ..old(self)@ }),
    {
        self.current_transaction = transaction;
    }
}

} // verus!

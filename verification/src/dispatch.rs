//! The dispatch engine of a thread: where its next piece of work comes
//! from, how work of each kind is delivered, and what frames a read.
//!
//! The engine never blocks. A thread that finds no work is registered as
//! waiting; its caller waits for work to be pushed and asks again.

use vstd::prelude::*;
use vstd::bytes::{spec_u32_to_le_bytes, u32_to_le_bytes};
use crate::binder::{Binder, BinderView};
use crate::defs::{
    lemma_items_valid_ops, BinderError, ProcId, ThreadId, WorkItem, BR_NOOP, BR_SPAWN_LOOPER,
    TRANSACTION_DATA_SECCTX_SIZE,
};

use crate::thread::ThreadView;
use crate::user_ptr::{chunk_views, UserSlicePtrWriter};

verus! {

/// Room that a reader must have left for another piece of work to be
/// fetched: the largest header and its command.
pub const READ_ROOM: usize = TRANSACTION_DATA_SECCTX_SIZE + 4;

impl BinderView {
    /// The thread as it looks for work: it no longer waits on its process.
    pub open spec fn stop_waiting(self, th: int) -> BinderView {
        self.unregister(self.threads[th].process as int, th as usize)
    }

    /// What `thread_get_work` returns: the oldest item of the thread's own
    /// queue if that is due, else, for a thread that takes work from its
    /// process, the oldest item of the process queue.
    pub open spec fn thread_get_work_result(self, th: int) -> Option<WorkItem> {
        let thread = self.threads[th];
        if thread.next_work().is_some() {
            thread.next_work()
        } else if thread.uses_process_queue() {
            self.next_work(thread.process as int)
        } else {
            None
        }
    }

    /// The engine after `thread_get_work`. The thread stops waiting. Work
    /// from its own queue comes first. A thread that is in the pool and
    /// serves no transaction then turns to the process queue, and if that
    /// is empty too it is registered as waiting, unless it is due to
    /// return to userspace.
    pub open spec fn thread_get_work(self, th: int) -> BinderView {
        let s0 = self.stop_waiting(th);
        let thread = self.threads[th];
        let p = thread.process as int;
        let s1 = s0.with_thread(th, thread.pop_work());
        if thread.next_work().is_some() || !thread.uses_process_queue() {
            s1
        } else if thread.looper_need_return {
            s1.get_work(p)
        } else {
            s1.get_work_or_register(p, th as usize)
        }
    }

    /// Whether a reader that found no work waits for some: only if it may
    /// block, has written nothing yet in this read, is not due to return
    /// to userspace, and neither it nor its process is dead.
    pub open spec fn read_should_wait(self, th: int, blocking: bool, wrote: bool) -> bool {
        blocking && !wrote && !self.threads[th].looper_need_return && !self.threads[th].is_dead
            && !self.procs[self.threads[th].process as int].is_dead
    }

    /// The engine after a read began: the slot for return commands is empty.
    pub open spec fn read_begin(self, th: int) -> BinderView {
        self.with_thread(th, ThreadView { return_work: None, ..self.threads[th] })
    }

    /// What a read writes first: on a fresh buffer a `BR_NOOP`, which may
    /// later turn into a request for another thread; then the return
    /// command from the slot, if there is one.
    pub open spec fn read_begin_chunks(self, th: int, fresh: bool) -> Seq<Seq<u8>> {
        (if fresh {
            seq![spec_u32_to_le_bytes(BR_NOOP)]
        } else {
            Seq::empty()
        }) + (match self.threads[th].return_work {
            Some(code) => seq![spec_u32_to_le_bytes(code)],
            None => Seq::empty(),
        })
    }

    /// Whether a read ends with a request for another thread: the buffer
    /// began with the placeholder, the reader is in the pool, and the pool
    /// wants a thread.
    pub open spec fn read_end_spawns(self, th: int, has_noop: bool) -> bool {
        has_noop && self.threads[th].looper.is_looper() && self.procs[self.threads[th].process as int].wants_thread()
    }

    /// The engine after a read ended: the reader is no longer due to
    /// return, and a thread that is asked for counts as requested.
    pub open spec fn read_end(self, th: int, has_noop: bool) -> BinderView {
        let p = self.threads[th].process as int;
        let s1 = if self.read_end_spawns(th, has_noop) {
            self.with_proc(p, self.procs[p].needs_thread())
        } else {
            self
        };
        s1.with_thread(th, ThreadView { looper_need_return: false, ..s1.threads[th] })
    }

    /// The engine after `BC_REGISTER_LOOPER`: the thread joins the pool as
    /// one that the engine asked for, if it did ask.
    pub open spec fn looper_register(self, th: int) -> BinderView {
        let p = self.threads[th].process as int;
        let pr = self.procs[p];
        let valid = pr.requested_thread_count != 0 && pr.started_thread_count != u32::MAX;
        self.with_proc(p, pr.register_thread()).with_thread(
            th,
            ThreadView { looper: self.threads[th].looper.registered_spec(valid), ..self.threads[th] },
        )
    }
}

/// The buffer with its first four bytes replaced by the request for
/// another thread.
pub open spec fn spawn_patched(data: Seq<u8>) -> Seq<u8> {
    if data.len() >= 4 {
        spec_u32_to_le_bytes(BR_SPAWN_LOOPER) + data.subrange(4, data.len() as int)
    } else {
        data
    }
}

impl Binder {
    /// Fetches the next piece of work for thread `th`, or registers the
    /// thread as waiting if there is none and it may wait.
    pub fn thread_get_work(&mut self, th: ThreadId) -> (r: Option<WorkItem>)
        requires
            old(self)@.wf(),
            th < old(self)@.threads.len(),
        ensures
            final(self)@ == old(self)@.thread_get_work(th as int),
            r == old(self)@.thread_get_work_result(th as int),
            r.is_some() ==> r.unwrap().valid(old(self)@.lens()) && old(self)@.item_for(
                r.unwrap(),
                old(self)@.threads[th as int].process as int,
            ),
            final(self)@.wf(),
            final(self)@.extends(old(self)@),
            final(self)@.lens() == old(self)@.lens(),
    {
        let ghost thread = self@.threads[th as int];
        assert(thread.valid(self@.lens()));
        let p: ProcId = self.threads[th].process;
        self.unregister(p, th);
        proof {
            lemma_items_valid_ops(thread.work_list, self@.lens(), WorkItem::Return(0));
            self@.lemma_routed();
            assert(self@.thread_routed(th as int));
            self@.lemma_items_for_ops(thread.work_list, thread.process as int, WorkItem::Return(0));
            self@.lemma_with_thread(th as int, thread.pop_work());
        }
        let uses_process: bool = self.threads[th].should_use_process_work_queue();
        let need_return: bool = self.threads[th].looper_need_return;
        match self.thread_mut(th).pop_work() {
            Some(w) => Some(w),
            None => {
                if !uses_process {
                    None
                } else if need_return {
                    self.get_work(p)
                } else {
                    self.get_work_or_register(p, th)
                }
            },
        }
    }

    /// Decides whether thread `th`, which found no work, waits for some or
    /// ends its read. `blocking` says whether the caller may block,
    /// `wrote` whether this read has written a piece of work already.
    pub fn read_should_wait(&self, th: ThreadId, blocking: bool, wrote: bool) -> (r: bool)
        requires
            self@.wf(),
            th < self@.threads.len(),
        ensures
            r == self@.read_should_wait(th as int, blocking, wrote),
    {
        assert(self@.threads[th as int].valid(self@.lens()));
        let thread = &self.threads[th];
        blocking && !wrote && !thread.looper_need_return && !thread.is_dead
            && !self.procs[thread.process].inner.is_dead
    }

    /// Delivers one piece of work to the reading thread `th`. `fds` are
    /// the descriptors reserved for the files of a transaction. Returns
    /// whether the reader gets no more work in this pass, and the
    /// descriptors to bind.
    pub fn do_work(
        &mut self,
        work: WorkItem,
        th: ThreadId,
        writer: &mut UserSlicePtrWriter,
        fds: &Option<Vec<u32>>,
    ) -> (r: (Result<bool, BinderError>, Vec<(u32, u64)>))
        requires
            old(self)@.wf(),
            th < old(self)@.threads.len(),
            work.valid(old(self)@.lens()),
            old(self)@.item_for(work, old(self)@.threads[th as int].process as int),
            old(writer).wf(),
        ensures
            match work {
                WorkItem::Transaction(t) => {
                    let o = old(self)@.txn_do_work(
                        t as int,
                        th as int,
                        old(writer)@,
                        crate::deliver::opt_view(*fds),
                    );
                    final(self)@ == o.0 && final(writer)@ == o.1 && r.0 == o.2 && r.1@ == o.3
                },
                WorkItem::Node(n) => {
                    let chunks = crate::deliver::node_commands(
                        old(self)@.nodes[n as int].refs.delivery(),
                        old(self)@.nodes[n as int].ptr,
                        old(self)@.nodes[n as int].cookie,
                    );
                    &&& final(self)@ == old(self)@.node_do_work(n as int)
                    &&& final(writer)@ == old(writer)@.put_all(chunks)
                    &&& r.0 == (if old(writer)@.fits_all(chunks) {
                        Ok::<bool, BinderError>(false)
                    } else {
                        Err::<bool, BinderError>(BinderError::Fault)
                    })
                    &&& r.1@.len() == 0
                },
                WorkItem::NodeDeath(d) => {
                    let delivery = old(self)@.deaths[d as int].inner.delivery_spec();
                    let chunks = crate::deliver::death_commands(
                        delivery,
                        old(self)@.deaths[d as int].cookie,
                    );
                    &&& final(self)@ == old(self)@.death_do_work(d as int)
                    &&& final(writer)@ == old(writer)@.put_all(chunks)
                    &&& r.0 == (if old(writer)@.fits_all(chunks) {
                        Ok::<bool, BinderError>(delivery == crate::node::DeathDelivery::DeadBinder)
                    } else {
                        Err::<bool, BinderError>(BinderError::Fault)
                    })
                    &&& r.1@.len() == 0
                },
                WorkItem::Return(code) => {
                    &&& final(self)@ == old(self)@
                    &&& final(writer)@ == old(writer)@.put(spec_u32_to_le_bytes(code))
                    &&& r.0 == (if old(writer)@.fits(4) {
                        Ok::<bool, BinderError>(false)
                    } else {
                        Err::<bool, BinderError>(BinderError::Fault)
                    })
                    &&& r.1@.len() == 0
                },
            },
            final(writer).wf(),
            final(self)@.wf(),
            final(self)@.extends(old(self)@),
            final(self)@.lens() == old(self)@.lens(),
    {
        match work {
            WorkItem::Transaction(t) => self.txn_do_work(t, th, writer, fds),
            WorkItem::Node(n) => (self.node_do_work(n, writer), Vec::new()),
            WorkItem::NodeDeath(d) => (self.death_do_work(d, writer), Vec::new()),
            WorkItem::Return(code) => {
                proof {
                    vstd::bytes::lemma_auto_spec_u32_to_from_le_bytes();
                }
                let bytes: Vec<u8> = u32_to_le_bytes(code);
                match writer.write_slice(bytes.as_slice()) {
                    Ok(()) => (Ok(false), Vec::new()),
                    Err(e) => (Err(e), Vec::new()),
                }
            },
        }
    }

    /// Begins a read of thread `th`: on a fresh buffer writes the
    /// placeholder `BR_NOOP`, then the return command from the thread's
    /// slot, if there is one, and empties the slot. `Fault` when they do
    /// not fit; what fits has been written.
    pub fn read_begin(&mut self, th: ThreadId, writer: &mut UserSlicePtrWriter, fresh: bool) -> (r: Result<
        (),
        BinderError,
    >)
        requires
            old(self)@.wf(),
            th < old(self)@.threads.len(),
            old(writer).wf(),
        ensures
            final(self)@ == old(self)@.read_begin(th as int),
            final(writer)@ == old(writer)@.put_all(old(self)@.read_begin_chunks(th as int, fresh)),
            r.is_ok() == old(writer)@.fits_all(old(self)@.read_begin_chunks(th as int, fresh)),
            r.is_err() ==> r == Err::<(), BinderError>(BinderError::Fault),
            final(writer).wf(),
            final(self)@.wf(),
            final(self)@.extends(old(self)@),
            final(self)@.lens() == old(self)@.lens(),
    {
        let mut chunks: Vec<Vec<u8>> = Vec::new();
        if fresh {
            chunks.push(u32_to_le_bytes(BR_NOOP));
        }
        proof {
            let thread = self@.threads[th as int];
            assert(thread.valid(self@.lens()));
            self@.lemma_with_thread(th as int, ThreadView { return_work: None, ..thread });
        }
        match self.thread_mut(th).take_return_work() {
            Some(code) => {
                chunks.push(u32_to_le_bytes(code));
            },
            None => {},
        }
        proof {
            assert(chunk_views(chunks@) =~= old(self)@.read_begin_chunks(th as int, fresh));
        }
        writer.write_all(&chunks)
    }

    /// Ends a read of thread `th`. If the buffer began with the
    /// placeholder and the pool of the thread's process wants another
    /// thread, the placeholder becomes `BR_SPAWN_LOOPER`. The thread is no
    /// longer due to return to userspace.
    pub fn read_end(&mut self, th: ThreadId, writer: &mut UserSlicePtrWriter, has_noop: bool) -> (spawn: bool)
        requires
            old(self)@.wf(),
            th < old(self)@.threads.len(),
            old(writer).wf(),
        ensures
            final(self)@ == old(self)@.read_end(th as int, has_noop),
            spawn == old(self)@.read_end_spawns(th as int, has_noop),
            final(writer)@.limit == old(writer)@.limit,
            final(writer)@.data == (if spawn {
                spawn_patched(old(writer)@.data)
            } else {
                old(writer)@.data
            }),
            final(writer).wf(),
            final(self)@.wf(),
            final(self)@.extends(old(self)@),
            final(self)@.lens() == old(self)@.lens(),
    {
        assert(self@.threads[th as int].valid(self@.lens()));
        let p: ProcId = self.threads[th].process;
        let in_pool: bool = self.threads[th].is_looper();
        let mut spawn: bool = false;
        if has_noop && in_pool {
            proof {
                let pr = self@.procs[p as int];
                assert(pr.valid(self@.lens()));
                self@.lemma_with_proc(p as int, pr.needs_thread());
            }
            spawn = self.proc_mut(p).needs_thread();
        }
        if spawn {
            proof {
                vstd::bytes::lemma_auto_spec_u32_to_from_le_bytes();
            }
            let bytes: Vec<u8> = u32_to_le_bytes(BR_SPAWN_LOOPER);
            if writer.data.len() >= 4 {
                let mut i: usize = 0;
                while i < 4
                    invariant
                        i <= 4,
                        bytes@.len() == 4,
                        writer.data@.len() == old(writer).data@.len(),
                        writer.data@.len() >= 4,
                        writer.limit == old(writer).limit,
                        forall|j: int| 0 <= j < i ==> writer.data@[j] == bytes@[j],
                        forall|j: int|
                            i <= j < writer.data@.len() ==> writer.data@[j] == old(writer).data@[j],
                    decreases 4 - i,
                {
                    writer.data[i] = bytes[i];
                    i = i + 1;
                }
                proof {
                    assert(writer.data@ =~= spawn_patched(old(writer).data@));
                }
            }
        }
        proof {
            let thread = self@.threads[th as int];
            assert(thread.valid(self@.lens()));
            self@.lemma_with_thread(th as int, ThreadView { looper_need_return: false, ..thread });
        }
        self.thread_mut(th).looper_need_return = false;
        spawn
    }

    /// Handles `BC_REGISTER_LOOPER` from thread `th`.
    pub fn looper_register(&mut self, th: ThreadId)
        requires
            old(self)@.wf(),
            th < old(self)@.threads.len(),
        ensures
            final(self)@ == old(self)@.looper_register(th as int),
            final(self)@.wf(),
            final(self)@.extends(old(self)@),
            final(self)@.lens() == old(self)@.lens(),
    {
        assert(self@.threads[th as int].valid(self@.lens()));
        let p: ProcId = self.threads[th].process;
        proof {
            let pr = self@.procs[p as int];
            assert(pr.valid(self@.lens()));
            self@.lemma_with_proc(p as int, pr.register_thread());
        }
        let valid: bool = self.proc_mut(p).register_thread();
        proof {
            let thread = self@.threads[th as int];
            assert(thread.valid(self@.lens()));
            self@.lemma_with_thread(
                th as int,
                ThreadView { looper: thread.looper.registered_spec(valid), ..thread },
            );
        }
        self.thread_mut(th).looper_register(valid);
    }

    /// Handles `BC_ENTER_LOOPER` from thread `th`.
    pub fn looper_enter(&mut self, th: ThreadId)
        requires
            old(self)@.wf(),
            th < old(self)@.threads.len(),
        ensures
            final(self)@ == old(self)@.with_thread(
                th as int,
                ThreadView {
                    looper: old(self)@.threads[th as int].looper.entered_spec(),
                    ..old(self)@.threads[th as int]
                },
            ),
            final(self)@.wf(),
            final(self)@.extends(old(self)@),
            final(self)@.lens() == old(self)@.lens(),
    {
        proof {
            let thread = self@.threads[th as int];
            assert(thread.valid(self@.lens()));
            self@.lemma_with_thread(
                th as int,
                ThreadView { looper: thread.looper.entered_spec(), ..thread },
            );
        }
        self.thread_mut(th).looper_enter();
    }

    /// Handles `BC_EXIT_LOOPER` from thread `th`.
    pub fn looper_exit(&mut self, th: ThreadId)
        requires
            old(self)@.wf(),
            th < old(self)@.threads.len(),
        ensures
            final(self)@ == old(self)@.with_thread(
                th as int,
                ThreadView {
                    looper: old(self)@.threads[th as int].looper.exited_spec(),
                    ..old(self)@.threads[th as int]
                },
            ),
            final(self)@.wf(),
            final(self)@.extends(old(self)@),
            final(self)@.lens() == old(self)@.lens(),
    {
        proof {
            let thread = self@.threads[th as int];
            assert(thread.valid(self@.lens()));
            self@.lemma_with_thread(
                th as int,
                ThreadView { looper: thread.looper.exited_spec(), ..thread },
            );
        }
        self.thread_mut(th).looper_exit();
    }
}

} // verus!

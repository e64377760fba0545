//! Delivery: what a reading thread writes to userspace for each kind of
//! work, and what the delivery changes.

use vstd::prelude::*;
use vstd::bytes::{spec_u32_to_le_bytes, spec_u64_to_le_bytes, u32_to_le_bytes, u64_to_le_bytes};
use crate::binder::{Binder, BinderView};
use crate::defs::{
    lemma_ids_below_ops, BinderError, DeathId, NodeId, ProcId, ThreadId, TxnId, WorkItem,
    BR_ACQUIRE, BR_CLEAR_DEATH_NOTIFICATION_DONE, BR_DEAD_BINDER, BR_DECREFS, BR_FAILED_REPLY,
    BR_INCREFS, BR_RELEASE, BR_REPLY, BR_TRANSACTION, BR_TRANSACTION_SEC_CTX,
};
use crate::file::FileDescriptorReservation;
use crate::process::Allocation;
use crate::send::{ptr_align, ptr_align_spec};
use crate::thread::ThreadView;
use crate::transaction::{FileInfo, TransactionView};
use crate::node::{DeathDelivery, NodeDelivery};
use crate::process::ProcessView;
use crate::user_ptr::{chunk_views, UserSlicePtrWriter, WriterView};

verus! {

/// The bytes of a command about a node: the opcode, then the address and
/// the cookie under which the owner knows the node.
pub open spec fn node_command(code: u32, ptr: usize, cookie: usize) -> Seq<Seq<u8>> {
    seq![
        spec_u32_to_le_bytes(code),
        spec_u64_to_le_bytes(ptr as u64),
        spec_u64_to_le_bytes(cookie as u64),
    ]
}

/// The bytes that one delivery of a node writes: acquisitions before
/// releases, and within each the weak count before the strong one for
/// acquisitions, the strong one before the weak one for releases.
pub open spec fn node_commands(d: NodeDelivery, ptr: usize, cookie: usize) -> Seq<Seq<u8>> {
    (if d.increfs {
        node_command(BR_INCREFS, ptr, cookie)
    } else {
        Seq::empty()
    }) + (if d.acquire {
        node_command(BR_ACQUIRE, ptr, cookie)
    } else {
        Seq::empty()
    }) + (if d.release {
        node_command(BR_RELEASE, ptr, cookie)
    } else {
        Seq::empty()
    }) + (if d.decrefs {
        node_command(BR_DECREFS, ptr, cookie)
    } else {
        Seq::empty()
    })
}

/// The bytes of a command about a death subscription: the opcode and the cookie.
pub open spec fn death_command(code: u32, cookie: usize) -> Seq<Seq<u8>> {
    seq![spec_u32_to_le_bytes(code), spec_u64_to_le_bytes(cookie as u64)]
}

/// The bytes that the delivery of a death subscription writes.
pub open spec fn death_commands(d: DeathDelivery, cookie: usize) -> Seq<Seq<u8>> {
    match d {
        DeathDelivery::Nothing => Seq::empty(),
        DeathDelivery::ClearDone => death_command(BR_CLEAR_DEATH_NOTIFICATION_DONE, cookie),
        DeathDelivery::DeadBinder => death_command(BR_DEAD_BINDER, cookie),
    }
}

impl BinderView {
    /// The engine after the node that userspace of process `p` knows under
    /// `ptr` left the node table of `p`.
    pub open spec fn remove_node(self, p: int, ptr: usize) -> BinderView {
        let i = self.node_pos(p, ptr, 0);
        if i < self.procs[p].nodes.len() {
            self.with_proc(p, ProcessView { nodes: self.procs[p].nodes.remove(i), ..self.procs[p] })
        } else {
            self
        }
    }

    /// The engine after node `n` was delivered to its owner: the counts
    /// that the owner is told about are marked, and a node without any
    /// reference leaves the owner's node table.
    pub open spec fn node_do_work(self, n: int) -> BinderView {
        let node = self.nodes[n];
        let s1 = self.with_node(n, node.with_refs(node.refs.delivered()));
        if node.refs.delivery().remove {
            s1.remove_node(node.owner as int, node.ptr)
        } else {
            s1
        }
    }

    /// The engine after death subscription `d` was delivered: a death that
    /// is reported goes on the subscriber's list of delivered deaths.
    pub open spec fn death_do_work(self, d: int) -> BinderView {
        let de = self.deaths[d];
        if de.inner.delivery_spec() == DeathDelivery::DeadBinder {
            let pr = self.procs[de.process as int];
            self.with_proc(
                de.process as int,
                ProcessView { delivered_deaths: pr.delivered_deaths.push(d as usize), ..pr },
            )
        } else {
            self
        }
    }

    /// A delivery of a node never writes a drop together with an
    /// acquisition, writes a drop only while no acquisition is
    /// unacknowledged, and leaves the node with at most two unacknowledged
    /// acquisitions.
    pub proof fn lemma_node_delivery_order(self, n: int)
        requires
            self.wf(),
            0 <= n < self.nodes.len(),
        ensures
            self.node_do_work(n).nodes[n].refs.wf(),
            self.node_do_work(n).nodes[n].refs.active_inc_refs <= 2,
            ({
                let d = self.nodes[n].refs.delivery();
                (d.release || d.decrefs) ==> !d.increfs && !d.acquire
                    && self.nodes[n].refs.active_inc_refs == 0 && self.node_do_work(
                    n,
                ).nodes[n].refs.active_inc_refs == 0
            }),
    {
        assert(self.nodes[n].valid(self.lens()));
        self.nodes[n].refs.lemma_delivery_respects_active();
    }

    /// The address of the list of offsets of the payload of a
    /// transaction; zero if it has none.
    pub open spec fn offsets_address(tx: TransactionView) -> u64 {
        if tx.offsets_size > 0 && ptr_align_spec(tx.data_size as int) <= usize::MAX
            && tx.data_address + ptr_align_spec(tx.data_size as int) <= u64::MAX {
            (tx.data_address + ptr_align_spec(tx.data_size as int)) as u64
        } else {
            0
        }
    }

    /// The return command that delivers transaction `t`.
    pub open spec fn txn_code(self, t: int) -> u32 {
        let tx = self.txns[t];
        if tx.target_node.is_none() {
            BR_REPLY
        } else if tx.txn_security_ctx_off.is_some() {
            BR_TRANSACTION_SEC_CTX
        } else {
            BR_TRANSACTION
        }
    }

    /// The process id of the sender as the recipient is told it: only for
    /// a call that expects a reply, and only while the sender lives.
    pub open spec fn sender_pid(self, t: int) -> u32 {
        let tx = self.txns[t];
        let from = self.procs[self.threads[tx.from as int].process as int];
        if tx.is_sync_call() && !from.is_dead && from.pid >= 0 {
            from.pid as u32
        } else {
            0
        }
    }

    /// The header that goes out with transaction `t`: 64 bytes, and 8
    /// more with the address of the security context if there is one.
    pub open spec fn txn_header(self, t: int) -> Seq<u8> {
        let tx = self.txns[t];
        let (ptr, cookie) = match tx.target_node {
            Some(n) => (self.nodes[n as int].ptr as u64, self.nodes[n as int].cookie as u64),
            None => (0u64, 0u64),
        };
        let fixed = spec_u64_to_le_bytes(ptr) + spec_u64_to_le_bytes(cookie) + spec_u32_to_le_bytes(
            tx.code,
        ) + spec_u32_to_le_bytes(tx.flags) + spec_u32_to_le_bytes(self.sender_pid(t))
            + spec_u32_to_le_bytes(tx.sender_euid) + spec_u64_to_le_bytes(tx.data_size as u64)
            + spec_u64_to_le_bytes(tx.offsets_size as u64) + spec_u64_to_le_bytes(
            tx.data_address as u64,
        ) + spec_u64_to_le_bytes(Self::offsets_address(tx));
        match tx.txn_security_ctx_off {
            Some(off) => fixed + spec_u64_to_le_bytes(
                if tx.data_address + off <= u64::MAX {
                    (tx.data_address + off) as u64
                } else {
                    0
                },
            ),
            None => fixed,
        }
    }

    /// What a reader is given for transaction `t`: the command, then the header.
    pub open spec fn txn_chunks(self, t: int) -> Seq<Seq<u8>> {
        seq![spec_u32_to_le_bytes(self.txn_code(t)), self.txn_header(t)]
    }

    /// The engine after the descriptor numbers of the files from number
    /// `k` on were written into the buffer that starts at `base` and has
    /// `size` bytes, and whether every one of them lies inside the buffer.
    pub open spec fn write_fds(
        self,
        to: int,
        base: usize,
        size: usize,
        files: Seq<FileInfo>,
        fds: Seq<u32>,
        k: int,
    ) -> (BinderView, bool)
        decreases files.len() - k,
    {
        if k < 0 || k >= files.len() {
            (self, true)
        } else if files[k].buffer_offset + 4 > size || base + files[k].buffer_offset > usize::MAX {
            (self, false)
        } else {
            self.buffer_write(
                to,
                (base + files[k].buffer_offset) as usize,
                spec_u32_to_le_bytes(fds[k]),
            ).write_fds(to, base, size, files, fds, k + 1)
        }
    }

    /// The engine after the sender of transaction `t` was told that the
    /// transaction failed, if it is a call that expects a reply.
    pub open spec fn send_failed_reply(self, t: int) -> BinderView {
        if self.txns[t].is_sync_call() {
            self.deliver_reply(
                self.txns[t].from as int,
                WorkItem::Return(BR_FAILED_REPLY),
                t as usize,
            )
        } else {
            self
        }
    }

    /// The engine after a buffer was given up while its transaction was
    /// being delivered: the buffer is freed and is no longer the
    /// transaction's to free.
    pub open spec fn abandon_delivery(self, t: int, alloc: Allocation) -> BinderView {
        let s1 = self.allocation_free(self.txns[t].to as int, alloc);
        s1.with_txn(t, TransactionView { free_allocation: false, ..s1.txns[t] })
    }

    /// What preparing the files of transaction `t` yields, and the engine
    /// after it. `fds` are the descriptors that were reserved in the
    /// recipient, one per file, or `None` if they could not be reserved.
    ///
    /// The files leave the transaction. Without files there is nothing to
    /// do. Otherwise each descriptor number is written where the payload
    /// has room for it, and each file gets its reservation. If the buffer
    /// cannot be found, the descriptors are missing, or a number does not
    /// lie in the buffer, the preparation fails; in the last two cases the
    /// buffer is given up.
    pub open spec fn prepare_file_list(self, t: int, fds: Option<Seq<u32>>) -> (
        BinderView,
        Option<Seq<FileInfo>>,
    ) {
        let tx = self.txns[t];
        let to = tx.to as int;
        let s0 = self.with_txn(t, TransactionView { file_list: Seq::empty(), ..tx });
        if tx.file_list.len() == 0 {
            (s0, Some(Seq::empty()))
        } else {
            match s0.buffer_get_result(to, tx.data_address) {
                None => (s0, None),
                Some(alloc) => {
                    let s1 = s0.buffer_get(to, tx.data_address);
                    if fds.is_some() && fds.unwrap().len() == tx.file_list.len() {
                        let (s2, ok) = s1.write_fds(
                            to,
                            alloc.offset,
                            alloc.size,
                            tx.file_list,
                            fds.unwrap(),
                            0,
                        );
                        if ok {
                            (
                                s2.buffer_make_freeable(to, alloc.offset, alloc.info),
                                Some(reserved(tx.file_list, fds.unwrap())),
                            )
                        } else {
                            (s2.abandon_delivery(t, alloc), None)
                        }
                    } else {
                        (s1.abandon_delivery(t, alloc), None)
                    }
                },
            }
        }
    }

    /// What the delivery of transaction `t` to thread `th` yields: the
    /// engine and the writer after it, the result, and the descriptors to
    /// bind to files.
    ///
    /// If the files cannot be prepared, nothing is written, the sender of
    /// a call is told that it failed, and the reader goes on with other
    /// work. If the command and the header do not fit, the sender of a
    /// call is told that it failed and the result is `Fault`. Otherwise
    /// the transaction is delivered: its buffer is the recipient's to
    /// free, a call that expects a reply becomes the current frame of the
    /// reader, the descriptors are to be bound, and the reader gets no
    /// more work in this pass.
    pub open spec fn txn_do_work(self, t: int, th: int, w: WriterView, fds: Option<Seq<u32>>) -> (
        BinderView,
        WriterView,
        Result<bool, BinderError>,
        Seq<(u32, u64)>,
    ) {
        let tx = self.txns[t];
        let (s1, files) = self.prepare_file_list(t, fds);
        match files {
            None => (s1.send_failed_reply(t), w, Ok(false), Seq::empty()),
            Some(fl) => {
                let chunks = s1.txn_chunks(t);
                if !w.fits_all(chunks) {
                    (s1.send_failed_reply(t), w.put_all(chunks), Err(BinderError::Fault), Seq::empty())
                } else {
                    let s2 = s1.with_txn(t, TransactionView { free_allocation: false, ..s1.txns[t] });
                    let s3 = if tx.is_sync_call() {
                        s2.with_thread(
                            th,
                            ThreadView { current_transaction: Some(t as usize), ..s2.threads[th] },
                        )
                    } else {
                        s2
                    };
                    (s3, w.put_all(chunks), Ok(true), installs(fl, fl.len() as int))
                }
            },
        }
    }
}

/// The files with the descriptors reserved for them, one each.
pub open spec fn reserved(files: Seq<FileInfo>, fds: Seq<u32>) -> Seq<FileInfo> {
    Seq::new(
        files.len(),
        |i: int|
            FileInfo {
                file: files[i].file,
                reservation: Some(FileDescriptorReservation { fd: fds[i] }),
                buffer_offset: files[i].buffer_offset,
            },
    )
}

/// The descriptors to bind among the first `n` files: each with its file.
pub open spec fn installs(files: Seq<FileInfo>, n: int) -> Seq<(u32, u64)>
    decreases n,
{
    if n <= 0 {
        Seq::empty()
    } else if files[n - 1].reservation.is_some() && files[n - 1].file.is_some() {
        installs(files, n - 1).push((files[n - 1].reservation.unwrap().fd, files[n - 1].file.unwrap()))
    } else {
        installs(files, n - 1)
    }
}

/// The chunks of a command about a node.
fn node_command_bytes(out: &mut Vec<Vec<u8>>, code: u32, ptr: usize, cookie: usize)
    ensures
        chunk_views(final(out)@) == chunk_views(old(out)@) + node_command(code, ptr, cookie),
{
    out.push(u32_to_le_bytes(code));
    out.push(u64_to_le_bytes(ptr as u64));
    out.push(u64_to_le_bytes(cookie as u64));
    proof {
        assert(chunk_views(out@) =~= chunk_views(old(out)@) + node_command(code, ptr, cookie));
    }
}

impl Binder {
    /// Takes the node that userspace of process `p` knows under `ptr` out
    /// of the node table of `p`.
    pub fn remove_node(&mut self, p: ProcId, ptr: usize)
        requires
            old(self)@.wf(),
            p < old(self)@.procs.len(),
        ensures
            final(self)@ == old(self)@.remove_node(p as int, ptr),
            final(self)@.wf(),
            final(self)@.extends(old(self)@),
            final(self)@.lens() == old(self)@.lens(),
    {
        let mut i: usize = 0;
        proof {
            self@.lemma_node_pos(p as int, ptr, 0);
        }
        while i < self.procs[p].inner.nodes.len()
            invariant
                self@.wf(),
                self@ == old(self)@,
                p < self@.procs.len(),
                i <= self@.procs[p as int].nodes.len(),
                self@.node_pos(p as int, ptr, 0) == self@.node_pos(p as int, ptr, i as int),
            decreases self@.procs[p as int].nodes.len() - i,
        {
            assert(self@.procs[p as int].valid(self@.lens()));
            let n: NodeId = self.procs[p].inner.nodes[i];
            assert(self@.procs[p as int].nodes[i as int] < self@.nodes.len());
            if self.nodes[n].ptr == ptr {
                proof {
                    let pr = self@.procs[p as int];
                    lemma_ids_below_ops(pr.nodes, self@.lens().nodes, 0, i as int);
                    self@.lemma_with_proc(p as int, ProcessView { nodes: pr.nodes.remove(i as int), ..pr });
                }
                self.proc_mut(p).inner.nodes.remove(i);
                return ;
            }
            i = i + 1;
        }
    }

    /// Delivers node `n` to its owner: tells the owner which counts it
    /// gained and which it may drop. Work goes on after it; `Fault` when
    /// the commands do not fit, in which case what fits has been written.
    pub fn node_do_work(&mut self, n: NodeId, writer: &mut UserSlicePtrWriter) -> (r: Result<
        bool,
        BinderError,
    >)
        requires
            old(self)@.wf(),
            n < old(self)@.nodes.len(),
            old(writer).wf(),
        ensures
            final(self)@ == old(self)@.node_do_work(n as int),
            final(writer)@ == old(writer)@.put_all(
                node_commands(
                    old(self)@.nodes[n as int].refs.delivery(),
                    old(self)@.nodes[n as int].ptr,
                    old(self)@.nodes[n as int].cookie,
                ),
            ),
            r == (if old(writer)@.fits_all(
                node_commands(
                    old(self)@.nodes[n as int].refs.delivery(),
                    old(self)@.nodes[n as int].ptr,
                    old(self)@.nodes[n as int].cookie,
                ),
            ) {
                Ok::<bool, BinderError>(false)
            } else {
                Err::<bool, BinderError>(BinderError::Fault)
            }),
            final(writer).wf(),
            final(self)@.wf(),
            final(self)@.extends(old(self)@),
            final(self)@.lens() == old(self)@.lens(),
    {
        let ghost node = self@.nodes[n as int];
        proof {
            assert(node.valid(self@.lens()));
            node.refs.lemma_delivery_respects_active();
            self@.lemma_with_node(n as int, node.with_refs(node.refs.delivered()));
        }
        let owner: ProcId = self.nodes[n].owner;
        let ptr: usize = self.nodes[n].ptr;
        let cookie: usize = self.nodes[n].cookie;
        let d: NodeDelivery = self.node_mut(n).deliver_locked();
        if d.remove {
            self.remove_node(owner, ptr);
        }
        let mut chunks: Vec<Vec<u8>> = Vec::new();
        proof {
            assert(chunk_views(chunks@) =~= Seq::<Seq<u8>>::empty());
        }
        if d.increfs {
            node_command_bytes(&mut chunks, BR_INCREFS, ptr, cookie);
        }
        if d.acquire {
            node_command_bytes(&mut chunks, BR_ACQUIRE, ptr, cookie);
        }
        if d.release {
            node_command_bytes(&mut chunks, BR_RELEASE, ptr, cookie);
        }
        if d.decrefs {
            node_command_bytes(&mut chunks, BR_DECREFS, ptr, cookie);
        }
        proof {
            assert(chunk_views(chunks@) =~= node_commands(d, ptr, cookie));
        }
        match writer.write_all(&chunks) {
            Ok(()) => Ok(false),
            Err(e) => Err(e),
        }
    }

    /// Delivers death subscription `d` to its subscriber. An aborted
    /// subscription writes nothing. A subscription that has ended is
    /// confirmed with `BR_CLEAR_DEATH_NOTIFICATION_DONE`. Otherwise the
    /// death is reported with `BR_DEAD_BINDER`, the subscription goes on
    /// the list of delivered deaths, and the reader gets no more work in
    /// this pass: the result is `true`.
    pub fn death_do_work(&mut self, d: DeathId, writer: &mut UserSlicePtrWriter) -> (r: Result<
        bool,
        BinderError,
    >)
        requires
            old(self)@.wf(),
            d < old(self)@.deaths.len(),
            old(writer).wf(),
        ensures
            final(self)@ == old(self)@.death_do_work(d as int),
            final(writer)@ == old(writer)@.put_all(
                death_commands(
                    old(self)@.deaths[d as int].inner.delivery_spec(),
                    old(self)@.deaths[d as int].cookie,
                ),
            ),
            r == (if old(writer)@.fits_all(
                death_commands(
                    old(self)@.deaths[d as int].inner.delivery_spec(),
                    old(self)@.deaths[d as int].cookie,
                ),
            ) {
                Ok::<bool, BinderError>(
                    old(self)@.deaths[d as int].inner.delivery_spec() == DeathDelivery::DeadBinder,
                )
            } else {
                Err::<bool, BinderError>(BinderError::Fault)
            }),
            final(writer).wf(),
            final(self)@.wf(),
            final(self)@.extends(old(self)@),
            final(self)@.lens() == old(self)@.lens(),
    {
        assert(self@.deaths[d as int].valid(self@.lens()));
        let cookie: usize = self.deaths[d].cookie;
        let delivery: DeathDelivery = self.deaths[d].inner.delivery();
        let mut chunks: Vec<Vec<u8>> = Vec::new();
        let mut stop: bool = false;
        match delivery {
            DeathDelivery::Nothing => {
                proof {
                    assert(chunk_views(chunks@) =~= Seq::<Seq<u8>>::empty());
                }
            },
            DeathDelivery::ClearDone => {
                chunks.push(u32_to_le_bytes(BR_CLEAR_DEATH_NOTIFICATION_DONE));
                chunks.push(u64_to_le_bytes(cookie as u64));
                proof {
                    assert(chunk_views(chunks@) =~= death_command(
                        BR_CLEAR_DEATH_NOTIFICATION_DONE,
                        cookie,
                    ));
                }
            },
            DeathDelivery::DeadBinder => {
                let p: ProcId = self.deaths[d].process;
                proof {
                    let pr = self@.procs[p as int];
                    assert(pr.valid(self@.lens()));
                    lemma_ids_below_ops(pr.delivered_deaths, self@.lens().deaths, d, 0);
                    self@.lemma_with_proc(
                        p as int,
                        ProcessView { delivered_deaths: pr.delivered_deaths.push(d), ..pr },
                    );
                }
                self.proc_mut(p).inner.delivered_deaths.push(d);
                chunks.push(u32_to_le_bytes(BR_DEAD_BINDER));
                chunks.push(u64_to_le_bytes(cookie as u64));
                proof {
                    assert(chunk_views(chunks@) =~= death_command(BR_DEAD_BINDER, cookie));
                }
                stop = true;
            },
        }
        match writer.write_all(&chunks) {
            Ok(()) => Ok(stop),
            Err(e) => Err(e),
        }
    }

    /// Number of files that travel with transaction `t`: as many
    /// descriptors must be reserved in the recipient before the
    /// transaction is delivered.
    pub fn txn_file_count(&self, t: TxnId) -> (r: usize)
        requires
            t < self@.txns.len(),
        ensures
            r == self@.txns[t as int].file_list.len(),
    {
        self.txns[t].file_list.len()
    }

    /// Builds the command and the header that deliver transaction `t`.
    pub fn txn_chunks(&self, t: TxnId) -> (r: Vec<Vec<u8>>)
        requires
            self@.wf(),
            t < self@.txns.len(),
        ensures
            chunk_views(r@) == self@.txn_chunks(t as int),
    {
        assert(self@.txns[t as int].valid(self@.lens(), t as int));
        let tx = &self.txns[t];
        assert(self@.threads[tx.from as int].valid(self@.lens()));
        let code: u32 = if tx.target_node.is_none() {
            BR_REPLY
        } else if tx.txn_security_ctx_off.is_some() {
            BR_TRANSACTION_SEC_CTX
        } else {
            BR_TRANSACTION
        };
        let (ptr, cookie): (u64, u64) = match tx.target_node {
            Some(n) => (self.nodes[n].ptr as u64, self.nodes[n].cookie as u64),
            None => (0, 0),
        };
        let from_proc: ProcId = self.threads[tx.from].process;
        let pid: u32 = if tx.is_sync_call() && !self.procs[from_proc].inner.is_dead
            && self.procs[from_proc].pid >= 0 {
            self.procs[from_proc].pid as u32
        } else {
            0
        };
        let offsets_address: u64 = if tx.offsets_size > 0 {
            match ptr_align(tx.data_size) {
                Some(a) => if a as u64 > u64::MAX - tx.data_address as u64 {
                    0
                } else {
                    tx.data_address as u64 + a as u64
                },
                None => 0,
            }
        } else {
            0
        };
        let mut header: Vec<u8> = u64_to_le_bytes(ptr);
        let mut b: Vec<u8> = u64_to_le_bytes(cookie);
        header.append(&mut b);
        let mut b: Vec<u8> = u32_to_le_bytes(tx.code);
        header.append(&mut b);
        let mut b: Vec<u8> = u32_to_le_bytes(tx.flags);
        header.append(&mut b);
        let mut b: Vec<u8> = u32_to_le_bytes(pid);
        header.append(&mut b);
        let mut b: Vec<u8> = u32_to_le_bytes(tx.sender_euid);
        header.append(&mut b);
        let mut b: Vec<u8> = u64_to_le_bytes(tx.data_size as u64);
        header.append(&mut b);
        let mut b: Vec<u8> = u64_to_le_bytes(tx.offsets_size as u64);
        header.append(&mut b);
        let mut b: Vec<u8> = u64_to_le_bytes(tx.data_address as u64);
        header.append(&mut b);
        let mut b: Vec<u8> = u64_to_le_bytes(offsets_address);
        header.append(&mut b);
        match tx.txn_security_ctx_off {
            Some(off) => {
                let secctx: u64 = if off as u64 > u64::MAX - tx.data_address as u64 {
                    0
                } else {
                    tx.data_address as u64 + off as u64
                };
                let mut b: Vec<u8> = u64_to_le_bytes(secctx);
                header.append(&mut b);
            },
            None => {},
        }
        let mut chunks: Vec<Vec<u8>> = Vec::new();
        chunks.push(u32_to_le_bytes(code));
        chunks.push(header);
        proof {
            assert(chunk_views(chunks@) =~= self@.txn_chunks(t as int));
        }
        chunks
    }

    /// Tells the sender of transaction `t` that the transaction failed, if
    /// it is a call that expects a reply.
    pub fn send_failed_reply(&mut self, t: TxnId)
        requires
            old(self)@.wf(),
            t < old(self)@.txns.len(),
        ensures
            final(self)@ == old(self)@.send_failed_reply(t as int),
            final(self)@.wf(),
            final(self)@.extends(old(self)@),
            final(self)@.lens() == old(self)@.lens(),
    {
        assert(self@.txns[t as int].valid(self@.lens(), t as int));
        if self.txns[t].is_sync_call() {
            let from: ThreadId = self.txns[t].from;
            self.deliver_reply(from, WorkItem::Return(BR_FAILED_REPLY), t);
        }
    }

    /// Gives up the buffer of transaction `t` while the transaction is
    /// being delivered.
    pub fn abandon_delivery(&mut self, t: TxnId, alloc: Allocation)
        requires
            old(self)@.wf(),
            t < old(self)@.txns.len(),
            alloc.info.is_some() ==> alloc.info.unwrap().valid(old(self)@.lens()),
        ensures
            final(self)@ == old(self)@.abandon_delivery(t as int, alloc),
            final(self)@.wf(),
            final(self)@.extends(old(self)@),
            final(self)@.lens() == old(self)@.lens(),
    {
        assert(self@.txns[t as int].valid(self@.lens(), t as int));
        let to: ProcId = self.txns[t].to;
        self.allocation_free(to, alloc);
        self.txn_take_allocation(t);
    }

    /// Writes the descriptor numbers of the files into the buffer that
    /// starts at `base` in the arena of process `to`. Returns whether every
    /// number lies inside the buffer; writing stops at the first that does not.
    pub fn write_fds(&mut self, to: ProcId, base: usize, size: usize, files: &Vec<FileInfo>, fds: &Vec<u32>) -> (ok: bool)
        requires
            old(self)@.wf(),
            to < old(self)@.procs.len(),
            fds@.len() == files@.len(),
        ensures
            final(self)@ == old(self)@.write_fds(to as int, base, size, files@, fds@, 0).0,
            ok == old(self)@.write_fds(to as int, base, size, files@, fds@, 0).1,
            final(self)@.wf(),
            final(self)@.extends(old(self)@),
            final(self)@.lens() == old(self)@.lens(),
    {
        let mut k: usize = 0;
        while k < files.len()
            invariant
                k <= files@.len(),
                fds@.len() == files@.len(),
                self@.wf(),
                to < self@.procs.len(),
                self@.lens() == old(self)@.lens(),
                self@.extends(old(self)@),
                self@.write_fds(to as int, base, size, files@, fds@, k as int) == old(self)@.write_fds(to as int, base, size, files@, fds@, 0),
            decreases files@.len() - k,
        {
            let off: usize = files[k].buffer_offset;
            if size < 4 || off > size - 4 || off > usize::MAX - base {
                return false;
            }
            let bytes: Vec<u8> = u32_to_le_bytes(fds[k]);
            self.buffer_write(to, base + off, bytes.as_slice());
            k = k + 1;
        }
        true
    }

    /// Prepares the files of transaction `t` for delivery. `fds` are the
    /// descriptors reserved in the recipient, one per file, or `None` if
    /// they could not be reserved. Returns the files with their
    /// reservations, or `None` if the preparation failed.
    pub fn prepare_file_list(&mut self, t: TxnId, fds: &Option<Vec<u32>>) -> (r: Option<Vec<FileInfo>>)
        requires
            old(self)@.wf(),
            t < old(self)@.txns.len(),
        ensures
            final(self)@ == old(self)@.prepare_file_list(t as int, opt_view(*fds)).0,
            match old(self)@.prepare_file_list(t as int, opt_view(*fds)).1 {
                Some(fl) => r.is_some() && r.unwrap()@ == fl,
                None => r.is_none(),
            },
            final(self)@.wf(),
            final(self)@.extends(old(self)@),
            final(self)@.lens() == old(self)@.lens(),
    {
        assert(self@.txns[t as int].valid(self@.lens(), t as int));
        let to: ProcId = self.txns[t].to;
        let address: usize = self.txns[t].data_address;
        let mut file_list: Vec<FileInfo> = Vec::new();
        proof {
            let tx = self@.txns[t as int];
            self@.lemma_with_txn(t as int, TransactionView { file_list: Seq::empty(), ..tx });
        }
        core::mem::swap(&mut self.txn_mut(t).file_list, &mut file_list);
        if file_list.len() == 0 {
            proof {
                assert(file_list@ =~= Seq::<FileInfo>::empty());
            }
            return Some(file_list);
        }
        let alloc: Allocation = match self.buffer_get(to, address) {
            Some(a) => a,
            None => {
                return None;
            },
        };
        let fds_ok: bool = match fds {
            Some(f) => f.len() == file_list.len(),
            None => false,
        };
        if !fds_ok {
            self.abandon_delivery(t, alloc);
            return None;
        }
        let f: &Vec<u32> = match fds {
            Some(f) => f,
            None => {
                return None;
            },
        };
        if !self.write_fds(to, alloc.offset, alloc.size, &file_list, f) {
            self.abandon_delivery(t, alloc);
            return None;
        }
        let Allocation { offset, size: _, ptr: _, info } = alloc;
        self.buffer_make_freeable(to, offset, info);
        let mut out: Vec<FileInfo> = Vec::new();
        let mut i: usize = 0;
        while i < file_list.len()
            invariant
                i <= file_list@.len(),
                f@.len() == file_list@.len(),
                out@.len() == i,
                forall|j: int| 0 <= j < i ==> out@[j] == reserved(file_list@, f@)[j],
            decreases file_list@.len() - i,
        {
            out.push(
                FileInfo {
                    file: file_list[i].file,
                    reservation: Some(FileDescriptorReservation { fd: f[i] }),
                    buffer_offset: file_list[i].buffer_offset,
                },
            );
            i = i + 1;
        }
        proof {
            assert(out@ =~= reserved(file_list@, f@));
        }
        Some(out)
    }

    /// Delivers transaction `t` to the reading thread `th`. `fds` are the
    /// descriptors reserved in the recipient for the files of the
    /// transaction, or `None` if they could not be reserved. Returns
    /// whether the reader gets no more work in this pass, and the
    /// descriptors to bind, each with its file.
    pub fn txn_do_work(
        &mut self,
        t: TxnId,
        th: ThreadId,
        writer: &mut UserSlicePtrWriter,
        fds: &Option<Vec<u32>>,
    ) -> (r: (Result<bool, BinderError>, Vec<(u32, u64)>))
        requires
            old(self)@.wf(),
            t < old(self)@.txns.len(),
            th < old(self)@.threads.len(),
            old(self)@.txns[t as int].to == old(self)@.threads[th as int].process,
            old(writer).wf(),
        ensures
            final(self)@ == old(self)@.txn_do_work(t as int, th as int, old(writer)@, opt_view(*fds)).0,
            final(writer)@ == old(self)@.txn_do_work(
                t as int,
                th as int,
                old(writer)@,
                opt_view(*fds),
            ).1,
            r.0 == old(self)@.txn_do_work(t as int, th as int, old(writer)@, opt_view(*fds)).2,
            r.1@ == old(self)@.txn_do_work(t as int, th as int, old(writer)@, opt_view(*fds)).3,
            final(writer).wf(),
            final(self)@.wf(),
            final(self)@.extends(old(self)@),
            final(self)@.lens() == old(self)@.lens(),
    {
        assert(self@.txns[t as int].valid(self@.lens(), t as int));
        let sync_call: bool = self.txns[t].is_sync_call();
        let file_list: Vec<FileInfo> = match self.prepare_file_list(t, fds) {
            Some(fl) => fl,
            None => {
                self.send_failed_reply(t);
                return (Ok(false), Vec::new());
            },
        };
        let chunks: Vec<Vec<u8>> = self.txn_chunks(t);
        match writer.write_all(&chunks) {
            Ok(()) => {},
            Err(e) => {
                self.send_failed_reply(t);
                return (Err(e), Vec::new());
            },
        }
        self.txn_take_allocation(t);
        if sync_call {
            proof {
                let thread = self@.threads[th as int];
                assert(thread.valid(self@.lens()));
                self@.lemma_with_thread(
                    th as int,
                    ThreadView { current_transaction: Some(t), ..thread },
                );
            }
            self.thread_mut(th).set_current_transaction(Some(t));
        }
        let mut out: Vec<(u32, u64)> = Vec::new();
        let mut i: usize = 0;
        while i < file_list.len()
            invariant
                i <= file_list@.len(),
                out@ == installs(file_list@, i as int),
            decreases file_list@.len() - i,
        {
            match (&file_list[i].reservation, file_list[i].file) {
                (Some(res), Some(file)) => {
                    out.push((res.reserved_fd(), file));
                },
                _ => {},
            }
            i = i + 1;
        }
        (Ok(true), out)
    }
}

/// The descriptors that the caller reserved, as a mathematical value.
pub open spec fn opt_view(fds: Option<Vec<u32>>) -> Option<Seq<u32>> {
    match fds {
        Some(f) => Some(f@),
        None => None,
    }
}

} // verus!

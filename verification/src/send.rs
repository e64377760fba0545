//! The sender's side of a transaction: the payload is copied into a buffer
//! of the recipient, the objects embedded in it are translated into the
//! recipient's terms, and the transaction is built.

use vstd::prelude::*;
use vstd::bytes::{spec_u64_to_le_bytes, u64_to_le_bytes};
use crate::binder::{Binder, BinderView};
use crate::defs::{
    flag_set, has_flag, BinderError, NodeId, ProcId, ThreadId, TxnId, WorkItem, BR_FAILED_REPLY,
    BR_TRANSACTION_COMPLETE, FLAT_BINDER_FLAG_ACCEPTS_FDS, FLAT_BINDER_FLAG_TXN_SECURITY_CTX,
    TF_ACCEPT_FDS, TF_CLEAR_BUF, TF_ONE_WAY,
};
use crate::thread::ThreadView;
use crate::node::NodeRef;
use crate::objects::{
    FlatBinderObject, BINDER_TYPE_BINDER, BINDER_TYPE_FD, BINDER_TYPE_HANDLE,
    BINDER_TYPE_WEAK_BINDER, BINDER_TYPE_WEAK_HANDLE,
};
use crate::process::{Allocation, AllocationInfo};
use crate::transaction::{FileInfo, Transaction, TransactionView};

verus! {

/// What userspace hands over with `BC_TRANSACTION` or `BC_REPLY`.
pub struct BinderTransactionData {
    /// The handle of the target; not used for replies.
    pub target_handle: u32,
    pub code: u32,
    pub flags: u32,
    /// The payload.
    pub data: Vec<u8>,
    /// Where in the payload the embedded objects are.
    pub offsets: Vec<u64>,
    /// The sender's security context, for targets that ask for it.
    pub secctx: Vec<u8>,
}

/// What was handed over, as a mathematical value.
pub struct BinderTransactionDataView {
    pub target_handle: u32,
    pub code: u32,
    pub flags: u32,
    pub data: Seq<u8>,
    pub offsets: Seq<u64>,
    pub secctx: Seq<u8>,
}

impl View for BinderTransactionData {
    type V = BinderTransactionDataView;

    open spec fn view(&self) -> BinderTransactionDataView {
        BinderTransactionDataView {
            target_handle: self.target_handle,
            code: self.code,
            flags: self.flags,
            data: self.data@,
            offsets: self.offsets@,
            secctx: self.secctx@,
        }
    }
}

/// A size rounded up to a multiple of eight.
pub open spec fn ptr_align_spec(x: int) -> int {
    (x + 7) / 8 * 8
}

/// Rounds a size up to a multiple of eight; `None` if that does not fit.
pub fn ptr_align(x: usize) -> (r: Option<usize>)
    ensures
        r.is_some() == (ptr_align_spec(x as int) <= usize::MAX),
        r.is_some() ==> r.unwrap() == ptr_align_spec(x as int),
        x <= ptr_align_spec(x as int) < x + 8,
{
    if x > usize::MAX - 7 {
        None
    } else {
        Some((x + 7) / 8 * 8)
    }
}

/// The list of offsets as it is stored behind the data: eight bytes each.
pub open spec fn offsets_bytes(offsets: Seq<u64>) -> Seq<u8>
    decreases offsets.len(),
{
    if offsets.len() == 0 {
        Seq::empty()
    } else {
        offsets_bytes(offsets.drop_last()) + spec_u64_to_le_bytes(offsets.last())
    }
}

/// The descriptor number of the object at `off` in a payload, if the
/// object lies in the payload and is a file descriptor.
pub open spec fn object_fd(data: Seq<u8>, off: u64) -> Option<u32> {
    if off + 24 <= data.len() {
        let o = FlatBinderObject::decode_spec(data.subrange(off as int, off + 24));
        if o.ty == BINDER_TYPE_FD {
            Some(o.value as u32)
        } else {
            None
        }
    } else {
        None
    }
}

/// For each embedded object of a payload, the descriptor number that the
/// sender passes with it, if it is a file descriptor.
pub open spec fn transaction_fds_spec(data: Seq<u8>, offsets: Seq<u64>) -> Seq<Option<u32>> {
    Seq::new(offsets.len(), |k: int| object_fd(data, offsets[k]))
}

/// Lists, for each embedded object of a payload, the descriptor number
/// that the sender passes with it, if it is a file descriptor. The caller
/// resolves each to a file before the transaction is sent.
pub fn transaction_fds(tr: &BinderTransactionData) -> (r: Vec<Option<u32>>)
    ensures
        r@ == transaction_fds_spec(tr.data@, tr.offsets@),
{
    let mut out: Vec<Option<u32>> = Vec::new();
    let mut k: usize = 0;
    while k < tr.offsets.len()
        invariant
            k <= tr.offsets@.len(),
            out@.len() == k,
            forall|j: int| 0 <= j < k ==> out@[j] == object_fd(tr.data@, tr.offsets@[j]),
        decreases tr.offsets@.len() - k,
    {
        let off: u64 = tr.offsets[k];
        let mut fd: Option<u32> = None;
        if tr.data.len() >= 24 && off <= (tr.data.len() - 24) as u64 {
            let at: usize = off as usize;
            let o = FlatBinderObject::decode(
                vstd::slice::slice_subrange(tr.data.as_slice(), at, at + 24),
            );
            if o.ty == BINDER_TYPE_FD {
                fd = Some(o.value as u32);
            }
        }
        out.push(fd);
        k = k + 1;
    }
    proof {
        assert(out@ =~= transaction_fds_spec(tr.data@, tr.offsets@));
    }
    out
}

/// The file that the caller resolved for object `k`, if any.
pub open spec fn file_at(files: Seq<Option<u64>>, k: int) -> Option<u64> {
    if 0 <= k < files.len() {
        files[k]
    } else {
        None
    }
}

/// The sizes of the parts of a buffer: the data, rounded up, the list of
/// offsets, and the security context, rounded up.
pub open spec fn buffer_layout(tr: BinderTransactionDataView, with_secctx: bool) -> (int, int, int) {
    let aligned = ptr_align_spec(tr.data.len() as int);
    let offsets_size = tr.offsets.len() as int * 8;
    let secctx_size = if with_secctx {
        ptr_align_spec(tr.secctx.len() as int)
    } else {
        0
    };
    (aligned, offsets_size, secctx_size)
}

/// What a successful copy of a payload yields.
pub struct Copied {
    /// The buffer, reserved in the recipient's arena, with the range of
    /// its list of offsets recorded.
    pub alloc: Allocation,
    /// The files that travel with the payload.
    pub file_list: Seq<FileInfo>,
}

impl BinderView {
    /// What handing a reference over to process `to` yields, and the engine
    /// after it. If `to` owns the node, the object at `at` becomes a
    /// reference by address and the node gains one count that the buffer
    /// holds until it is freed; if not, the reference is filed in the
    /// handle table of `to` and the object becomes a reference by handle.
    pub open spec fn transfer_object(self, to: int, at: usize, flags: u32, r: NodeRef, strong: bool) -> (
        BinderView,
        Result<Option<FileInfo>, BinderError>,
    ) {
        let node = self.nodes[r.node as int];
        if node.owner == to {
            let obj = FlatBinderObject {
                ty: if strong { BINDER_TYPE_BINDER } else { BINDER_TYPE_WEAK_BINDER },
                flags,
                value: node.ptr as u64,
                cookie: node.cookie as u64,
            };
            (
                self.buffer_write(to, at, obj.encode_spec()).update_node_refcount(
                    r.node as int,
                    true,
                    strong,
                    1,
                    None,
                ).drop_node_ref(r),
                Ok(None),
            )
        } else {
            let s1 = self.insert_or_update_handle(to, r, false);
            match self.insert_or_update_handle_result(to, r, false) {
                Ok(h) => {
                    let obj = FlatBinderObject {
                        ty: if strong { BINDER_TYPE_HANDLE } else { BINDER_TYPE_WEAK_HANDLE },
                        flags,
                        value: h as u64,
                        cookie: 0,
                    };
                    (s1.buffer_write(to, at, obj.encode_spec()), Ok(None))
                },
                Err(e) => (s1, Err(e)),
            }
        }
    }

    /// What translating the object at `off` in a buffer yields, and the
    /// engine after it.
    ///
    /// The buffer starts at `base` in the arena of `to` and has `limit`
    /// bytes of data; an object that does not lie in the data gives
    /// `BadArg`. A reference by address names a node of the sender, made if
    /// need be; a reference by handle names a row of the sender's handle
    /// table; both are handed over to `to`. A file descriptor gives
    /// `Failed` unless the target accepts files, `BadFd` unless the caller
    /// resolved a file for it, and else the file with the place where its
    /// descriptor number goes. Objects of other types stay as they are.
    pub open spec fn translate_object(
        self,
        th: int,
        to: int,
        base: usize,
        limit: usize,
        off: u64,
        allow_fds: bool,
        file: Option<u64>,
    ) -> (BinderView, Result<Option<FileInfo>, BinderError>) {
        let sp = self.threads[th].process as int;
        if off + 24 > limit || base + off > usize::MAX {
            (self, Err(BinderError::BadArg))
        } else {
            let at = (base + off) as usize;
            match self.read_object(to, at) {
                None => (self, Err(BinderError::Fault)),
                Some(o) => if o.is_binder() {
                    let s1 = self.get_node(
                        sp,
                        o.value as usize,
                        o.cookie as usize,
                        o.flags,
                        o.is_strong(),
                        Some(th as usize),
                    );
                    match self.get_node_result(sp, o.value as usize, o.cookie as usize, o.is_strong()) {
                        Ok(r) => s1.transfer_object(to, at, o.flags, r, o.is_strong()),
                        Err(e) => (s1, Err(e)),
                    }
                } else if o.is_handle() {
                    let s1 = self.get_node_from_handle(sp, o.value as u32, o.is_strong());
                    match self.get_node_from_handle_result(sp, o.value as u32, o.is_strong()) {
                        Ok(r) => s1.transfer_object(to, at, o.flags, r, o.is_strong()),
                        Err(e) => (s1, Err(e)),
                    }
                } else if o.ty == BINDER_TYPE_FD {
                    if !allow_fds {
                        (self, Err(BinderError::Failed))
                    } else {
                        match file {
                            None => (self, Err(BinderError::BadFd)),
                            Some(f) => (
                                self,
                                Ok(
                                    Some(
                                        FileInfo {
                                            file: Some(f),
                                            reservation: None,
                                            buffer_offset: (off + 8) as usize,
                                        },
                                    ),
                                ),
                            ),
                        }
                    }
                } else {
                    (self, Ok(None))
                },
            }
        }
    }

    /// What translating the objects from number `k` on yields: the engine
    /// after it, the files collected or the error of the first object
    /// that failed, and the number of objects translated.
    pub open spec fn translate_all(
        self,
        th: int,
        to: int,
        base: usize,
        limit: usize,
        offsets: Seq<u64>,
        allow_fds: bool,
        files: Seq<Option<u64>>,
        k: int,
        acc: Seq<FileInfo>,
    ) -> (BinderView, Result<Seq<FileInfo>, BinderError>, int)
        decreases offsets.len() - k,
    {
        if k < 0 || k >= offsets.len() {
            (self, Ok(acc), k)
        } else {
            let (s1, r) = self.translate_object(
                th,
                to,
                base,
                limit,
                offsets[k],
                allow_fds,
                file_at(files, k),
            );
            match r {
                Err(e) => (s1, Err(e), k),
                Ok(fo) => s1.translate_all(
                    th,
                    to,
                    base,
                    limit,
                    offsets,
                    allow_fds,
                    files,
                    k + 1,
                    match fo {
                        Some(f) => acc.push(f),
                        None => acc,
                    },
                ),
            }
        }
    }

    /// The engine after the parts of a payload were written into the
    /// buffer that starts at `base` in the arena of process `to`: the data,
    /// behind it the list of offsets, and behind that the security context
    /// if it goes along.
    pub open spec fn fill_buffer(self, to: int, base: usize, tr: BinderTransactionDataView, with_secctx: bool) -> BinderView {
        let (aligned, offsets_size, secctx_size) = buffer_layout(tr, with_secctx);
        let s1 = self.buffer_write(to, base, tr.data).buffer_write(
            to,
            (base + aligned) as usize,
            offsets_bytes(tr.offsets),
        );
        if with_secctx {
            s1.buffer_write(to, (base + aligned + offsets_size) as usize, tr.secctx)
        } else {
            s1
        }
    }

    /// The metadata of a buffer whose first `done` objects have been translated.
    pub open spec fn copied_info(aligned: int, done: int) -> AllocationInfo {
        AllocationInfo {
            offsets: Some((aligned as usize, (aligned + 8 * done) as usize)),
            target_node: None,
            oneway_node: None,
            clear_on_free: false,
        }
    }

    /// What copying a payload into the arena of process `to` yields, and
    /// the engine after it.
    ///
    /// The buffer holds the data, the list of offsets and, if asked for,
    /// the security context, each rounded up to a multiple of eight, and at
    /// least eight bytes in all. `NoMem` when the sizes do not fit; the
    /// errors of `buffer_alloc`; the error of the first object that cannot
    /// be translated, in which case the buffer is freed again and the
    /// objects translated so far are cleaned up.
    #[verifier::opaque]
    pub open spec fn copy_transaction_data(
        self,
        th: int,
        to: int,
        tr: BinderTransactionDataView,
        allow_fds: bool,
        with_secctx: bool,
        files: Seq<Option<u64>>,
    ) -> (BinderView, Result<Copied, BinderError>) {
        let (aligned, offsets_size, secctx_size) = buffer_layout(tr, with_secctx);
        let total = aligned + offsets_size + secctx_size;
        if total > usize::MAX {
            (self, Err(BinderError::NoMem))
        } else {
            let len = if total < 8 { 8usize } else { total as usize };
            match self.buffer_alloc_result(to, len) {
                Err(e) => (self, Err(e)),
                Ok(alloc) => {
                    let s2 = self.buffer_alloc(to, len).fill_buffer(to, alloc.offset, tr, with_secctx);
                    let (s3, r, done) = s2.translate_all(
                        th,
                        to,
                        alloc.offset,
                        tr.data.len() as usize,
                        tr.offsets,
                        allow_fds,
                        files,
                        0,
                        Seq::empty(),
                    );
                    let filled = Allocation {
                        info: if tr.offsets.len() > 0 {
                            Some(Self::copied_info(aligned, done))
                        } else {
                            None
                        },
                        ..alloc
                    };
                    match r {
                        Err(e) => (s3.allocation_free(to, filled), Err(e)),
                        Ok(file_list) => (s3, Ok(Copied { alloc: filled, file_list })),
                    }
                },
            }
        }
    }

    /// The metadata that a committed buffer of a transaction carries.
    pub open spec fn final_info(copied: Option<AllocationInfo>, target: Option<NodeRef>, oneway: Option<NodeId>, clear: bool) -> AllocationInfo {
        AllocationInfo {
            offsets: match copied {
                Some(i) => i.offsets,
                None => None,
            },
            target_node: target,
            oneway_node: oneway,
            clear_on_free: clear,
        }
    }

    /// What building a call yields, and the engine after it.
    ///
    /// The payload is copied to the owner of the target node; the node's
    /// flags say whether files may travel and whether the security context
    /// goes along. A one-way transaction must not sit on a transaction
    /// stack: `Failed`. The buffer is committed with the reference to the
    /// target, and for a one-way transaction with the node whose queue it
    /// holds back. On failure the buffer and the reference are given up.
    #[verifier::opaque]
    pub open spec fn new_transaction(
        self,
        th: int,
        node_ref: NodeRef,
        stack_next: Option<TxnId>,
        tr: BinderTransactionDataView,
        files: Seq<Option<u64>>,
    ) -> (BinderView, Result<TxnId, BinderError>) {
        let node = self.nodes[node_ref.node as int];
        let to = node.owner as int;
        let allow_fds = has_flag(node.flags, FLAT_BINDER_FLAG_ACCEPTS_FDS);
        let with_secctx = has_flag(node.flags, FLAT_BINDER_FLAG_TXN_SECURITY_CTX);
        let oneway = has_flag(tr.flags, TF_ONE_WAY);
        let (s1, c) = self.copy_transaction_data(th, to, tr, allow_fds, with_secctx, files);
        match c {
            Err(e) => (s1.drop_node_ref(node_ref), Err(e)),
            Ok(copied) => if oneway && stack_next.is_some() {
                (
                    s1.allocation_free(to, copied.alloc).drop_node_ref(node_ref),
                    Err(BinderError::Failed),
                )
            } else {
                let info = Self::final_info(
                    copied.alloc.info,
                    Some(node_ref),
                    if oneway { Some(node_ref.node) } else { None },
                    has_flag(tr.flags, TF_CLEAR_BUF),
                );
                let s2 = s1.buffer_make_freeable(to, copied.alloc.offset, Some(info));
                let (aligned, offsets_size, secctx_size) = buffer_layout(tr, with_secctx);
                let txn = TransactionView {
                    target_node: Some(node_ref.node),
                    stack_next,
                    from: th as usize,
                    to: to as usize,
                    free_allocation: true,
                    code: tr.code,
                    flags: tr.flags,
                    data_size: tr.data.len() as usize,
                    offsets_size: offsets_size as usize,
                    data_address: copied.alloc.ptr,
                    sender_euid: self.procs[self.threads[th].process as int].euid,
                    txn_security_ctx_off: if with_secctx {
                        Some((aligned + offsets_size) as usize)
                    } else {
                        None
                    },
                    file_list: copied.file_list,
                };
                (s2.push_txn(txn), Ok(s2.txns.len() as usize))
            },
        }
    }

    /// What building a reply yields, and the engine after it. A reply
    /// names no node and sits on no stack; whether files may travel is the
    /// caller's to say.
    #[verifier::opaque]
    pub open spec fn new_reply(
        self,
        th: int,
        to: int,
        tr: BinderTransactionDataView,
        allow_fds: bool,
        files: Seq<Option<u64>>,
    ) -> (BinderView, Result<TxnId, BinderError>) {
        let (s1, c) = self.copy_transaction_data(th, to, tr, allow_fds, false, files);
        match c {
            Err(e) => (s1, Err(e)),
            Ok(copied) => {
                let info = Self::final_info(
                    copied.alloc.info,
                    None,
                    None,
                    has_flag(tr.flags, TF_CLEAR_BUF),
                );
                let s2 = s1.buffer_make_freeable(to, copied.alloc.offset, Some(info));
                let txn = TransactionView {
                    target_node: None,
                    stack_next: None,
                    from: th as usize,
                    to: to as usize,
                    free_allocation: true,
                    code: tr.code,
                    flags: tr.flags,
                    data_size: tr.data.len() as usize,
                    offsets_size: (tr.offsets.len() * 8) as usize,
                    data_address: copied.alloc.ptr,
                    sender_euid: self.procs[self.threads[th].process as int].euid,
                    txn_security_ctx_off: None,
                    file_list: copied.file_list,
                };
                (s2.push_txn(txn), Ok(s2.txns.len() as usize))
            },
        }
    }

    /// What sending a one-way transaction yields, and the engine after it.
    /// The sender is told at once that the transaction is on its way; if
    /// it cannot be submitted it is dropped.
    pub open spec fn oneway_transaction(
        self,
        th: int,
        node_ref: NodeRef,
        tr: BinderTransactionDataView,
        files: Seq<Option<u64>>,
    ) -> (BinderView, Result<(), BinderError>) {
        let (s2, r) = self.new_transaction(th, node_ref, None, tr, files);
        match r {
            Err(e) => (s2, Err(e)),
            Ok(t) => {
                let s3 = s2.thread_push_work(th, WorkItem::Return(BR_TRANSACTION_COMPLETE));
                let s4 = s3.txn_submit(t as int);
                match s3.txn_submit_result(t as int) {
                    Ok(()) => (s4, Ok(())),
                    Err(e) => (s4.txn_drop(t as int), Err(e)),
                }
            },
        }
    }

    /// What sending a call that expects a reply yields, and the engine
    /// after it. The call goes on top of the sender's transaction stack,
    /// and the sender hears that it is on its way only when it next looks
    /// at its queue; if the call cannot be submitted, the stack is as
    /// before and the call is dropped.
    pub open spec fn sync_transaction(
        self,
        th: int,
        node_ref: NodeRef,
        tr: BinderTransactionDataView,
        files: Seq<Option<u64>>,
    ) -> (BinderView, Result<(), BinderError>) {
        let top = self.threads[th].current_transaction;
        let (s2, r) = self.new_transaction(th, node_ref, top, tr, files);
        match r {
            Err(e) => (s2, Err(e)),
            Ok(t) => {
                let s3 = s2.with_thread(
                    th,
                    ThreadView { current_transaction: Some(t), ..s2.threads[th] },
                ).thread_push_work_deferred(th, WorkItem::Return(BR_TRANSACTION_COMPLETE));
                let s4 = s3.txn_submit(t as int);
                match s3.txn_submit_result(t as int) {
                    Ok(()) => (s4, Ok(())),
                    Err(e) => (
                        s4.with_thread(
                            th,
                            ThreadView { current_transaction: top, ..s4.threads[th] },
                        ).txn_drop(t as int),
                        Err(e),
                    ),
                }
            },
        }
    }

    /// What `BC_TRANSACTION` yields before the error is reported, and the
    /// engine after it.
    pub open spec fn transaction_inner(
        self,
        th: int,
        tr: BinderTransactionDataView,
        files: Seq<Option<u64>>,
    ) -> (BinderView, Result<(), BinderError>) {
        let p = self.threads[th].process as int;
        let s1 = self.get_transaction_node(p, tr.target_handle);
        match self.get_transaction_node_result(p, tr.target_handle) {
            Err(e) => (s1, Err(e)),
            Ok(node_ref) => if has_flag(tr.flags, TF_ONE_WAY) {
                s1.oneway_transaction(th, node_ref, tr, files)
            } else {
                s1.sync_transaction(th, node_ref, tr, files)
            },
        }
    }

    /// The engine after `BC_TRANSACTION`: a failure is put, as the reply
    /// command that stands for it, into the sender's slot for return commands.
    pub open spec fn thread_transaction(
        self,
        th: int,
        tr: BinderTransactionDataView,
        files: Seq<Option<u64>>,
    ) -> BinderView {
        let (s, r) = self.transaction_inner(th, tr, files);
        match r {
            Ok(()) => s,
            Err(e) => s.with_thread(
                th,
                ThreadView { return_work: Some(e.reply_code_spec()), ..s.threads[th] },
            ),
        }
    }

    /// What `BC_REPLY` yields, the engine after it, and the command that
    /// goes into the replier's slot for return commands on failure.
    ///
    /// The reply answers the frame on top of the replier's stack, which
    /// must be the current frame of its sender: `BadArg` without such a
    /// frame, `Failed` if the sender has moved on. If the reply cannot be
    /// built, the sender gets `BR_FAILED_REPLY` and the replier hears only
    /// that the transaction is complete.
    pub open spec fn reply_inner(
        self,
        th: int,
        tr: BinderTransactionDataView,
        files: Seq<Option<u64>>,
    ) -> (BinderView, Result<(), BinderError>, u32) {
        match self.pop_transaction_to_reply_result(th) {
            Err(e) => (self, Err(e), e.reply_code_spec()),
            Ok(orig) => {
                let s1 = self.pop_transaction_to_reply(th);
                let from = self.txns[orig as int].from as int;
                if s1.threads[from].current_transaction != Some(orig) {
                    (s1, Err(BinderError::Failed), BR_FAILED_REPLY)
                } else {
                    let to = self.threads[from].process as int;
                    let allow_fds = has_flag(self.txns[orig as int].flags, TF_ACCEPT_FDS);
                    let (s2, r) = s1.new_reply(th, to, tr, allow_fds, files);
                    match r {
                        Ok(reply) => (
                            s2.thread_push_work(
                                th,
                                WorkItem::Return(BR_TRANSACTION_COMPLETE),
                            ).deliver_reply(from, WorkItem::Transaction(reply), orig),
                            Ok(()),
                            0,
                        ),
                        Err(e) => (
                            s2.deliver_reply(from, WorkItem::Return(BR_FAILED_REPLY), orig),
                            Err(e),
                            BR_TRANSACTION_COMPLETE,
                        ),
                    }
                }
            },
        }
    }

    /// The engine after `BC_REPLY`.
    pub open spec fn thread_reply(
        self,
        th: int,
        tr: BinderTransactionDataView,
        files: Seq<Option<u64>>,
    ) -> BinderView {
        let (s, r, code) = self.reply_inner(th, tr, files);
        match r {
            Ok(()) => s,
            Err(e) => s.with_thread(th, ThreadView { return_work: Some(code), ..s.threads[th] }),
        }
    }
}

impl Binder {
    /// Hands a reference over to process `to` and rewrites the object at
    /// `at` in the arena of `to` accordingly.
    pub fn transfer_object(&mut self, to: ProcId, at: usize, flags: u32, r: NodeRef, strong: bool) -> (res: Result<
        Option<FileInfo>,
        BinderError,
    >)
        requires
            old(self)@.wf(),
            to < old(self)@.procs.len(),
            r.node < old(self)@.nodes.len(),
        ensures
            final(self)@ == old(self)@.transfer_object(to as int, at, flags, r, strong).0,
            res == old(self)@.transfer_object(to as int, at, flags, r, strong).1,
            final(self)@.wf(),
            final(self)@.extends(old(self)@),
            final(self)@.lens() == old(self)@.lens(),
    {
        let n: NodeId = r.node;
        if self.nodes[n].owner == to {
            let obj = FlatBinderObject::new_binder(
                self.nodes[n].ptr,
                self.nodes[n].cookie,
                flags,
                strong,
            );
            let bytes: Vec<u8> = obj.encode();
            self.buffer_write(to, at, bytes.as_slice());
            self.update_node_refcount(n, true, strong, 1, None);
            self.drop_node_ref(r);
            Ok(None)
        } else {
            match self.insert_or_update_handle(to, r, false) {
                Ok(h) => {
                    let obj = FlatBinderObject::new_handle(h, flags, strong);
                    let bytes: Vec<u8> = obj.encode();
                    self.buffer_write(to, at, bytes.as_slice());
                    Ok(None)
                },
                Err(e) => Err(e),
            }
        }
    }

    /// Translates the object at `off` in a buffer in the arena of `to`
    /// that thread `th` is filling. `file` is the file that the caller
    /// resolved for the object, should it be a file descriptor.
    #[verifier::rlimit(60)]
    pub fn translate_object(
        &mut self,
        th: ThreadId,
        to: ProcId,
        base: usize,
        limit: usize,
        off: u64,
        allow_fds: bool,
        file: Option<u64>,
    ) -> (res: Result<Option<FileInfo>, BinderError>)
        requires
            old(self)@.wf(),
            th < old(self)@.threads.len(),
            to < old(self)@.procs.len(),
        ensures
            final(self)@ == old(self)@.translate_object(
                th as int,
                to as int,
                base,
                limit,
                off,
                allow_fds,
                file,
            ).0,
            res == old(self)@.translate_object(
                th as int,
                to as int,
                base,
                limit,
                off,
                allow_fds,
                file,
            ).1,
            final(self)@.wf(),
            final(self)@.extends(old(self)@),
            old(self)@.lens().le(final(self)@.lens()),
            final(self)@.procs.len() == old(self)@.procs.len(),
            final(self)@.threads.len() == old(self)@.threads.len(),
            final(self)@.txns.len() == old(self)@.txns.len(),
    {
        assert(self@.threads[th as int].valid(self@.lens()));
        let sp: ProcId = self.threads[th].process;
        if limit < 24 || off > (limit - 24) as u64 || off > (usize::MAX - base) as u64 {
            return Err(BinderError::BadArg);
        }
        let at: usize = base + off as usize;
        let o: FlatBinderObject = match self.buffer_read_object(to, at) {
            None => {
                return Err(BinderError::Fault);
            },
            Some(o) => o,
        };
        let strong: bool = o.ty == BINDER_TYPE_BINDER || o.ty == BINDER_TYPE_HANDLE;
        if o.ty == BINDER_TYPE_BINDER || o.ty == BINDER_TYPE_WEAK_BINDER {
            match self.get_node(sp, o.value as usize, o.cookie as usize, o.flags, strong, Some(th)) {
                Ok(r) => self.transfer_object(to, at, o.flags, r, strong),
                Err(e) => Err(e),
            }
        } else if o.ty == BINDER_TYPE_HANDLE || o.ty == BINDER_TYPE_WEAK_HANDLE {
            match self.get_node_from_handle(sp, o.value as u32, strong) {
                Ok(r) => self.transfer_object(to, at, o.flags, r, strong),
                Err(e) => Err(e),
            }
        } else if o.ty == BINDER_TYPE_FD {
            if !allow_fds {
                return Err(BinderError::Failed);
            }
            match file {
                None => Err(BinderError::BadFd),
                Some(f) => Ok(Some(FileInfo::new(f, off as usize + 8))),
            }
        } else {
            Ok(None)
        }
    }

    /// Translates the embedded objects of a buffer, first to last, and
    /// stops at the first that fails. Returns the files collected, or the
    /// error, and the number of objects translated.
    pub fn translate_all(
        &mut self,
        th: ThreadId,
        to: ProcId,
        base: usize,
        limit: usize,
        offsets: &Vec<u64>,
        allow_fds: bool,
        files: &Vec<Option<u64>>,
    ) -> (res: (Result<Vec<FileInfo>, BinderError>, usize))
        requires
            old(self)@.wf(),
            th < old(self)@.threads.len(),
            to < old(self)@.procs.len(),
        ensures
            ({
                let (s, r, done) = old(self)@.translate_all(
                    th as int,
                    to as int,
                    base,
                    limit,
                    offsets@,
                    allow_fds,
                    files@,
                    0,
                    Seq::empty(),
                );
                &&& final(self)@ == s
                &&& res.1 == done
                &&& match r {
                    Ok(fl) => res.0.is_ok() && res.0.unwrap()@ == fl,
                    Err(e) => res.0 == Err::<Vec<FileInfo>, BinderError>(e),
                }
            }),
            res.1 <= offsets@.len(),
            final(self)@.wf(),
            final(self)@.extends(old(self)@),
            old(self)@.lens().le(final(self)@.lens()),
            final(self)@.procs.len() == old(self)@.procs.len(),
            final(self)@.threads.len() == old(self)@.threads.len(),
            final(self)@.txns.len() == old(self)@.txns.len(),
    {
        let mut acc: Vec<FileInfo> = Vec::new();
        let mut k: usize = 0;
        while k < offsets.len()
            invariant
                k <= offsets@.len(),
                self@.wf(),
                th < self@.threads.len(),
                to < self@.procs.len(),
                old(self)@.lens().le(self@.lens()),
                self@.extends(old(self)@),
                self@.procs.len() == old(self)@.procs.len(),
                self@.threads.len() == old(self)@.threads.len(),
                self@.txns.len() == old(self)@.txns.len(),
                self@.translate_all(
                    th as int,
                    to as int,
                    base,
                    limit,
                    offsets@,
                    allow_fds,
                    files@,
                    k as int,
                    acc@,
                ) == old(self)@.translate_all(
                    th as int,
                    to as int,
                    base,
                    limit,
                    offsets@,
                    allow_fds,
                    files@,
                    0,
                    Seq::empty(),
                ),
            decreases offsets@.len() - k,
        {
            let file: Option<u64> = if k < files.len() {
                files[k]
            } else {
                None
            };
            match self.translate_object(th, to, base, limit, offsets[k], allow_fds, file) {
                Err(e) => {
                    return (Err(e), k);
                },
                Ok(fo) => {
                    match fo {
                        Some(f) => {
                            acc.push(f);
                        },
                        None => {},
                    }
                },
            }
            k = k + 1;
        }
        (Ok(acc), k)
    }

    /// Computes the sizes of the parts of a buffer; `None` if they do not
    /// fit together.
    pub fn layout(tr: &BinderTransactionData, with_secctx: bool) -> (r: Option<(usize, usize, usize)>)
        ensures
            ({
                let (aligned, offsets_size, secctx_size) = buffer_layout(tr@, with_secctx);
                &&& r.is_some() == (aligned + offsets_size + secctx_size <= usize::MAX)
                &&& r.is_some() ==> r.unwrap().0 == aligned && r.unwrap().1 == offsets_size
                    && r.unwrap().2 == secctx_size
                &&& tr@.data.len() <= aligned
            }),
    {
        let aligned: usize = match ptr_align(tr.data.len()) {
            Some(a) => a,
            None => {
                return None;
            },
        };
        if tr.offsets.len() > usize::MAX / 8 {
            return None;
        }
        let offsets_size: usize = tr.offsets.len() * 8;
        let secctx_size: usize = if with_secctx {
            match ptr_align(tr.secctx.len()) {
                Some(a) => a,
                None => {
                    return None;
                },
            }
        } else {
            0
        };
        if offsets_size > usize::MAX - aligned || secctx_size > usize::MAX - aligned - offsets_size {
            return None;
        }
        Some((aligned, offsets_size, secctx_size))
    }

    /// Writes the list of offsets as bytes.
    pub fn encode_offsets(offsets: &Vec<u64>) -> (r: Vec<u8>)
        ensures
            r@ == offsets_bytes(offsets@),
    {
        let mut obytes: Vec<u8> = Vec::new();
        let mut i: usize = 0;
        while i < offsets.len()
            invariant
                i <= offsets@.len(),
                obytes@ == offsets_bytes(offsets@.subrange(0, i as int)),
            decreases offsets@.len() - i,
        {
            let mut b: Vec<u8> = u64_to_le_bytes(offsets[i]);
            proof {
                let next = offsets@.subrange(0, i + 1);
                assert(next.drop_last() =~= offsets@.subrange(0, i as int));
                assert(next.last() == offsets@[i as int]);
            }
            obytes.append(&mut b);
            i = i + 1;
        }
        proof {
            assert(offsets@.subrange(0, offsets@.len() as int) =~= offsets@);
        }
        obytes
    }

    /// Writes the parts of a payload into the buffer that starts at `base`
    /// in the arena of process `to`.
    pub fn fill_buffer(
        &mut self,
        to: ProcId,
        base: usize,
        tr: &BinderTransactionData,
        with_secctx: bool,
        aligned: usize,
        offsets_size: usize,
    )
        requires
            old(self)@.wf(),
            to < old(self)@.procs.len(),
            aligned == buffer_layout(tr@, with_secctx).0,
            offsets_size == buffer_layout(tr@, with_secctx).1,
            base + aligned + offsets_size <= usize::MAX,
        ensures
            final(self)@ == old(self)@.fill_buffer(to as int, base, tr@, with_secctx),
            final(self)@.wf(),
            final(self)@.extends(old(self)@),
            final(self)@.lens() == old(self)@.lens(),
    {
        self.buffer_write(to, base, tr.data.as_slice());
        let obytes: Vec<u8> = Self::encode_offsets(&tr.offsets);
        self.buffer_write(to, base + aligned, obytes.as_slice());
        if with_secctx {
            self.buffer_write(to, base + aligned + offsets_size, tr.secctx.as_slice());
        }
    }

    /// Copies a payload into a fresh buffer in the arena of process `to`
    /// and translates its embedded objects. `files` holds, for each
    /// object, the file that the caller resolved for it if it is a file
    /// descriptor.
    #[verifier::rlimit(100)]
    pub fn copy_transaction_data(
        &mut self,
        th: ThreadId,
        to: ProcId,
        tr: &BinderTransactionData,
        allow_fds: bool,
        with_secctx: bool,
        files: &Vec<Option<u64>>,
    ) -> (res: Result<(Allocation, Vec<FileInfo>), BinderError>)
        requires
            old(self)@.wf(),
            th < old(self)@.threads.len(),
            to < old(self)@.procs.len(),
        ensures
            final(self)@ == old(self)@.copy_transaction_data(
                th as int,
                to as int,
                tr@,
                allow_fds,
                with_secctx,
                files@,
            ).0,
            match old(self)@.copy_transaction_data(
                th as int,
                to as int,
                tr@,
                allow_fds,
                with_secctx,
                files@,
            ).1 {
                Ok(c) => res.is_ok() && res.unwrap().0 == c.alloc && res.unwrap().1@ == c.file_list,
                Err(e) => res == Err::<(Allocation, Vec<FileInfo>), BinderError>(e),
            },
            res.is_ok() ==> (res.unwrap().0.info.is_some() ==> res.unwrap().0.info.unwrap().valid(
                final(self)@.lens(),
            )),
            res.is_ok() ==> buffer_layout(tr@, with_secctx).0 + buffer_layout(tr@, with_secctx).1
                + buffer_layout(tr@, with_secctx).2 <= usize::MAX,
            final(self)@.wf(),
            final(self)@.extends(old(self)@),
            old(self)@.lens().le(final(self)@.lens()),
            final(self)@.procs.len() == old(self)@.procs.len(),
            final(self)@.threads.len() == old(self)@.threads.len(),
            final(self)@.txns.len() == old(self)@.txns.len(),
    {
        proof {
            reveal(BinderView::copy_transaction_data);
        }
        let (aligned, offsets_size, secctx_size): (usize, usize, usize) = match Self::layout(
            tr,
            with_secctx,
        ) {
            Some(l) => l,
            None => {
                return Err(BinderError::NoMem);
            },
        };
        let total: usize = aligned + offsets_size + secctx_size;
        let len: usize = if total < 8 { 8 } else { total };
        let alloc: Allocation = match self.buffer_alloc(to, len) {
            Ok(a) => a,
            Err(e) => {
                return Err(e);
            },
        };
        let Allocation { offset, size, ptr, info: _ } = alloc;
        self.fill_buffer(to, offset, tr, with_secctx, aligned, offsets_size);
        let (r, done) = self.translate_all(
            th,
            to,
            offset,
            tr.data.len(),
            &tr.offsets,
            allow_fds,
            files,
        );
        let info: Option<AllocationInfo> = if tr.offsets.len() > 0 {
            Some(
                AllocationInfo {
                    offsets: Some((aligned, aligned + 8 * done)),
                    target_node: None,
                    oneway_node: None,
                    clear_on_free: false,
                },
            )
        } else {
            None
        };
        let filled = Allocation { offset, size, ptr, info };
        match r {
            Err(e) => {
                self.allocation_free(to, filled);
                Err(e)
            },
            Ok(file_list) => Ok((filled, file_list)),
        }
    }

    /// Builds a call on the node behind `node_ref`, sent by thread `th`.
    /// `stack_next` is the top of the sender's transaction stack.
    #[verifier::rlimit(100)]
    pub fn new_transaction(
        &mut self,
        th: ThreadId,
        node_ref: NodeRef,
        stack_next: Option<TxnId>,
        tr: &BinderTransactionData,
        files: &Vec<Option<u64>>,
    ) -> (res: Result<TxnId, BinderError>)
        requires
            old(self)@.wf(),
            th < old(self)@.threads.len(),
            node_ref.node < old(self)@.nodes.len(),
            stack_next.is_some() ==> stack_next.unwrap() < old(self)@.txns.len(),
            old(self)@.frame_of(stack_next, th as int),
        ensures
            final(self)@ == old(self)@.new_transaction(th as int, node_ref, stack_next, tr@, files@).0,
            res == old(self)@.new_transaction(th as int, node_ref, stack_next, tr@, files@).1,
            res.is_ok() ==> res.unwrap() < final(self)@.txns.len() && final(self)@.txns[res.unwrap() as int].from == th && final(self)@.txns[res.unwrap() as int].stack_next
                == stack_next && final(self)@.txns[res.unwrap() as int].to == old(self)@.nodes[node_ref.node as int].owner,
            final(self)@.wf(),
            final(self)@.extends(old(self)@),
            old(self)@.lens().le(final(self)@.lens()),
            final(self)@.procs.len() == old(self)@.procs.len(),
            final(self)@.threads.len() == old(self)@.threads.len(),
    {
        proof {
            reveal(BinderView::new_transaction);
        }
        let n: NodeId = node_ref.node;
        assert(self@.nodes[n as int].valid(self@.lens()));
        assert(self@.threads[th as int].valid(self@.lens()));
        let to: ProcId = self.nodes[n].owner;
        let allow_fds: bool = flag_set(self.nodes[n].flags, FLAT_BINDER_FLAG_ACCEPTS_FDS);
        let with_secctx: bool = flag_set(self.nodes[n].flags, FLAT_BINDER_FLAG_TXN_SECURITY_CTX);
        let oneway: bool = flag_set(tr.flags, TF_ONE_WAY);
        let sender_euid: u32 = self.procs[self.threads[th].process].euid;
        let (alloc, file_list): (Allocation, Vec<FileInfo>) = match self.copy_transaction_data(
            th,
            to,
            tr,
            allow_fds,
            with_secctx,
            files,
        ) {
            Ok(c) => c,
            Err(e) => {
                self.drop_node_ref(node_ref);
                return Err(e);
            },
        };
        if oneway && stack_next.is_some() {
            self.allocation_free(to, alloc);
            self.drop_node_ref(node_ref);
            return Err(BinderError::Failed);
        }
        let Allocation { offset, size: _, ptr, info } = alloc;
        let offsets: Option<(usize, usize)> = match info {
            Some(i) => i.offsets,
            None => None,
        };
        let info2 = AllocationInfo {
            offsets,
            target_node: Some(node_ref),
            oneway_node: if oneway { Some(n) } else { None },
            clear_on_free: flag_set(tr.flags, TF_CLEAR_BUF),
        };
        self.buffer_make_freeable(to, offset, Some(info2));
        let (aligned, offsets_size): (usize, usize) = match Self::layout(tr, with_secctx) {
            Some(l) => (l.0, l.1),
            None => (0, 0),
        };
        let txn = Transaction {
            target_node: Some(n),
            stack_next,
            from: th,
            to,
            free_allocation: true,
            code: tr.code,
            flags: tr.flags,
            data_size: tr.data.len(),
            offsets_size,
            data_address: ptr,
            sender_euid,
            txn_security_ctx_off: if with_secctx { Some(aligned + offsets_size) } else { None },
            file_list,
        };
        Ok(self.push_txn(txn))
    }

    /// Builds a reply from thread `th` to process `to`.
    #[verifier::rlimit(100)]
    pub fn new_reply(
        &mut self,
        th: ThreadId,
        to: ProcId,
        tr: &BinderTransactionData,
        allow_fds: bool,
        files: &Vec<Option<u64>>,
    ) -> (res: Result<TxnId, BinderError>)
        requires
            old(self)@.wf(),
            th < old(self)@.threads.len(),
            to < old(self)@.procs.len(),
        ensures
            final(self)@ == old(self)@.new_reply(th as int, to as int, tr@, allow_fds, files@).0,
            res == old(self)@.new_reply(th as int, to as int, tr@, allow_fds, files@).1,
            res.is_ok() ==> res.unwrap() < final(self)@.txns.len() && final(self)@.txns[res.unwrap() as int].to == to,
            final(self)@.wf(),
            final(self)@.extends(old(self)@),
            old(self)@.lens().le(final(self)@.lens()),
            final(self)@.procs.len() == old(self)@.procs.len(),
            final(self)@.threads.len() == old(self)@.threads.len(),
    {
        proof {
            reveal(BinderView::new_reply);
        }
        assert(self@.threads[th as int].valid(self@.lens()));
        let sender_euid: u32 = self.procs[self.threads[th].process].euid;
        let (alloc, file_list): (Allocation, Vec<FileInfo>) = match self.copy_transaction_data(
            th,
            to,
            tr,
            allow_fds,
            false,
            files,
        ) {
            Ok(c) => c,
            Err(e) => {
                return Err(e);
            },
        };
        let Allocation { offset, size: _, ptr, info } = alloc;
        let offsets: Option<(usize, usize)> = match info {
            Some(i) => i.offsets,
            None => None,
        };
        let info2 = AllocationInfo {
            offsets,
            target_node: None,
            oneway_node: None,
            clear_on_free: flag_set(tr.flags, TF_CLEAR_BUF),
        };
        self.buffer_make_freeable(to, offset, Some(info2));
        let offsets_size: usize = match Self::layout(tr, false) {
            Some(l) => l.1,
            None => 0,
        };
        let txn = Transaction {
            target_node: None,
            stack_next: None,
            from: th,
            to,
            free_allocation: true,
            code: tr.code,
            flags: tr.flags,
            data_size: tr.data.len(),
            offsets_size,
            data_address: ptr,
            sender_euid,
            txn_security_ctx_off: None,
            file_list,
        };
        Ok(self.push_txn(txn))
    }

    /// Sends a one-way transaction to the node behind `node_ref`.
    pub fn oneway_transaction(
        &mut self,
        th: ThreadId,
        node_ref: NodeRef,
        tr: &BinderTransactionData,
        files: &Vec<Option<u64>>,
    ) -> (res: Result<(), BinderError>)
        requires
            old(self)@.wf(),
            th < old(self)@.threads.len(),
            node_ref.node < old(self)@.nodes.len(),
        ensures
            final(self)@ == old(self)@.oneway_transaction(th as int, node_ref, tr@, files@).0,
            res == old(self)@.oneway_transaction(th as int, node_ref, tr@, files@).1,
            final(self)@.wf(),
            final(self)@.extends(old(self)@),
            final(self)@.procs.len() == old(self)@.procs.len(),
            final(self)@.threads.len() == old(self)@.threads.len(),
    {
        let t: TxnId = match self.new_transaction(th, node_ref, None, tr, files) {
            Ok(t) => t,
            Err(e) => {
                return Err(e);
            },
        };
        self.thread_push_work(th, WorkItem::Return(BR_TRANSACTION_COMPLETE));
        match self.txn_submit(t) {
            Ok(()) => Ok(()),
            Err(e) => {
                self.txn_drop(t);
                Err(e)
            },
        }
    }

    /// Sends a call that expects a reply to the node behind `node_ref`.
    #[verifier::rlimit(100)]
    pub fn sync_transaction(
        &mut self,
        th: ThreadId,
        node_ref: NodeRef,
        tr: &BinderTransactionData,
        files: &Vec<Option<u64>>,
    ) -> (res: Result<(), BinderError>)
        requires
            old(self)@.wf(),
            th < old(self)@.threads.len(),
            node_ref.node < old(self)@.nodes.len(),
        ensures
            final(self)@ == old(self)@.sync_transaction(th as int, node_ref, tr@, files@).0,
            res == old(self)@.sync_transaction(th as int, node_ref, tr@, files@).1,
            final(self)@.wf(),
            final(self)@.extends(old(self)@),
            final(self)@.procs.len() == old(self)@.procs.len(),
            final(self)@.threads.len() == old(self)@.threads.len(),
    {
        assert(self@.threads[th as int].valid(self@.lens()));
        proof {
            self@.lemma_routed();
            assert(self@.thread_routed(th as int));
        }
        let top: Option<TxnId> = self.threads[th].current_transaction;
        let t: TxnId = match self.new_transaction(th, node_ref, top, tr, files) {
            Ok(t) => t,
            Err(e) => {
                return Err(e);
            },
        };
        proof {
            let thread = self@.threads[th as int];
            assert(thread.valid(self@.lens()));
            self@.lemma_with_thread(
                th as int,
                ThreadView { current_transaction: Some(t), ..thread },
            );
        }
        self.thread_mut(th).set_current_transaction(Some(t));
        self.thread_push_work_deferred(th, WorkItem::Return(BR_TRANSACTION_COMPLETE));
        match self.txn_submit(t) {
            Ok(()) => Ok(()),
            Err(e) => {
                proof {
                    let thread = self@.threads[th as int];
                    assert(thread.valid(self@.lens()));
                    self@.lemma_routed();
                    assert(self@.txn_routed(t as int));
                    self@.lemma_with_thread(
                        th as int,
                        ThreadView { current_transaction: top, ..thread },
                    );
                }
                self.thread_mut(th).set_current_transaction(top);
                self.txn_drop(t);
                Err(e)
            },
        }
    }

    /// Handles `BC_TRANSACTION` up to the report of a failure.
    pub fn transaction_inner(
        &mut self,
        th: ThreadId,
        tr: &BinderTransactionData,
        files: &Vec<Option<u64>>,
    ) -> (res: Result<(), BinderError>)
        requires
            old(self)@.wf(),
            th < old(self)@.threads.len(),
        ensures
            final(self)@ == old(self)@.transaction_inner(th as int, tr@, files@).0,
            res == old(self)@.transaction_inner(th as int, tr@, files@).1,
            final(self)@.wf(),
            final(self)@.extends(old(self)@),
            old(self)@.lens().le(final(self)@.lens()),
            final(self)@.procs.len() == old(self)@.procs.len(),
            final(self)@.threads.len() == old(self)@.threads.len(),
    {
        assert(self@.threads[th as int].valid(self@.lens()));
        let p: ProcId = self.threads[th].process;
        let node_ref: NodeRef = match self.get_transaction_node(p, tr.target_handle) {
            Ok(r) => r,
            Err(e) => {
                return Err(e);
            },
        };
        if flag_set(tr.flags, TF_ONE_WAY) {
            self.oneway_transaction(th, node_ref, tr, files)
        } else {
            self.sync_transaction(th, node_ref, tr, files)
        }
    }

    /// Handles `BC_TRANSACTION` from thread `th`. A failure is also put, as
    /// the reply command that stands for it, into the thread's slot for
    /// return commands.
    pub fn thread_transaction(
        &mut self,
        th: ThreadId,
        tr: &BinderTransactionData,
        files: &Vec<Option<u64>>,
    ) -> (res: Result<(), BinderError>)
        requires
            old(self)@.wf(),
            th < old(self)@.threads.len(),
        ensures
            final(self)@ == old(self)@.thread_transaction(th as int, tr@, files@),
            res == old(self)@.transaction_inner(th as int, tr@, files@).1,
            final(self)@.wf(),
            final(self)@.extends(old(self)@),
            old(self)@.lens().le(final(self)@.lens()),
            final(self)@.procs.len() == old(self)@.procs.len(),
            final(self)@.threads.len() == old(self)@.threads.len(),
    {
        match self.transaction_inner(th, tr, files) {
            Ok(()) => Ok(()),
            Err(e) => {
                proof {
                    let thread = self@.threads[th as int];
                    assert(thread.valid(self@.lens()));
                    self@.lemma_with_thread(
                        th as int,
                        ThreadView { return_work: Some(e.reply_code_spec()), ..thread },
                    );
                }
                let code: u32 = e.reply_code();
                self.thread_mut(th).push_return_work(code);
                Err(e)
            },
        }
    }

    /// Handles `BC_REPLY` up to the report of a failure; returns with a
    /// failure the command that reports it.
    #[verifier::rlimit(100)]
    pub fn reply_inner(
        &mut self,
        th: ThreadId,
        tr: &BinderTransactionData,
        files: &Vec<Option<u64>>,
    ) -> (res: Result<(), (BinderError, u32)>)
        requires
            old(self)@.wf(),
            th < old(self)@.threads.len(),
        ensures
            final(self)@ == old(self)@.reply_inner(th as int, tr@, files@).0,
            match old(self)@.reply_inner(th as int, tr@, files@).1 {
                Ok(()) => res.is_ok(),
                Err(e) => res == Err::<(), (BinderError, u32)>(
                    (e, old(self)@.reply_inner(th as int, tr@, files@).2),
                ),
            },
            final(self)@.wf(),
            final(self)@.extends(old(self)@),
            old(self)@.lens().le(final(self)@.lens()),
            final(self)@.procs.len() == old(self)@.procs.len(),
            final(self)@.threads.len() == old(self)@.threads.len(),
    {
        let orig: TxnId = match self.pop_transaction_to_reply(th) {
            Ok(t) => t,
            Err(e) => {
                return Err((e, e.reply_code()));
            },
        };
        assert(self@.txns[orig as int].valid(self@.lens(), orig as int));
        let from: ThreadId = self.txns[orig].from;
        assert(self@.threads[from as int].valid(self@.lens()));
        let is_current: bool = match self.threads[from].current_transaction {
            Some(c) => c == orig,
            None => false,
        };
        if !is_current {
            return Err((BinderError::Failed, BR_FAILED_REPLY));
        }
        let to: ProcId = self.threads[from].process;
        let allow_fds: bool = flag_set(self.txns[orig].flags, TF_ACCEPT_FDS);
        match self.new_reply(th, to, tr, allow_fds, files) {
            Ok(reply) => {
                self.thread_push_work(th, WorkItem::Return(BR_TRANSACTION_COMPLETE));
                self.deliver_reply(from, WorkItem::Transaction(reply), orig);
                Ok(())
            },
            Err(e) => {
                self.deliver_reply(from, WorkItem::Return(BR_FAILED_REPLY), orig);
                Err((e, BR_TRANSACTION_COMPLETE))
            },
        }
    }

    /// Handles `BC_REPLY` from thread `th`. A failure is also reported in
    /// the thread's slot for return commands.
    pub fn thread_reply(
        &mut self,
        th: ThreadId,
        tr: &BinderTransactionData,
        files: &Vec<Option<u64>>,
    ) -> (res: Result<(), BinderError>)
        requires
            old(self)@.wf(),
            th < old(self)@.threads.len(),
        ensures
            final(self)@ == old(self)@.thread_reply(th as int, tr@, files@),
            res == old(self)@.reply_inner(th as int, tr@, files@).1,
            final(self)@.wf(),
            final(self)@.extends(old(self)@),
            old(self)@.lens().le(final(self)@.lens()),
            final(self)@.procs.len() == old(self)@.procs.len(),
            final(self)@.threads.len() == old(self)@.threads.len(),
    {
        match self.reply_inner(th, tr, files) {
            Ok(()) => Ok(()),
            Err((e, code)) => {
                proof {
                    let thread = self@.threads[th as int];
                    assert(thread.valid(self@.lens()));
                    self@.lemma_with_thread(
                        th as int,
                        ThreadView { return_work: Some(code), ..thread },
                    );
                }
                self.thread_mut(th).push_return_work(code);
                Err(e)
            },
        }
    }
}

} // verus!

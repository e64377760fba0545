//! Transactions: one unit of payload on its way from a thread to a process.

use vstd::prelude::*;
use crate::defs::{has_flag, Lens, NodeId, ProcId, ThreadId, TxnId, TF_ONE_WAY};
use crate::file::FileDescriptorReservation;

verus! {

/// A file that travels with a transaction.
#[derive(Debug)]
pub struct FileInfo {
    /// The file for which a descriptor is created in the recipient.
    pub file: Option<u64>,
    /// The descriptor reserved in the recipient.
    pub reservation: Option<FileDescriptorReservation>,
    /// Where in the payload the descriptor number is stored.
    pub buffer_offset: usize,
}

impl FileInfo {
    pub fn new(file: u64, buffer_offset: usize) -> (r: Self)
        ensures
            r == (FileInfo { file: Some(file), reservation: None, buffer_offset }),
    {
        FileInfo { file: Some(file), reservation: None, buffer_offset }
    }
}

pub struct Transaction {
    /// The node that the call is made on; `None` for a reply.
    pub target_node: Option<NodeId>,
    /// The top of the sender's transaction stack when this one was made.
    pub stack_next: Option<TxnId>,
    /// The sending thread.
    pub from: ThreadId,
    /// The receiving process.
    pub to: ProcId,
    /// The payload's buffer is still the transaction's to free.
    pub free_allocation: bool,
    pub code: u32,
    pub flags: u32,
    pub data_size: usize,
    pub offsets_size: usize,
    /// Address of the payload in the recipient's buffer arena.
    pub data_address: usize,
    pub sender_euid: u32,
    /// Where in the payload the sender's security context starts, if the
    /// node asked for one.
    pub txn_security_ctx_off: Option<usize>,
    pub file_list: Vec<FileInfo>,
}

/// A transaction as a mathematical value.
pub struct TransactionView {
    pub target_node: Option<NodeId>,
    pub stack_next: Option<TxnId>,
    pub from: ThreadId,
    pub to: ProcId,
    pub free_allocation: bool,
    pub code: u32,
    pub flags: u32,
    pub data_size: usize,
    pub offsets_size: usize,
    pub data_address: usize,
    pub sender_euid: u32,
    pub txn_security_ctx_off: Option<usize>,
    pub file_list: Seq<FileInfo>,
}

impl View for Transaction {
    type V = TransactionView;

    open spec fn view(&self) -> TransactionView {
        TransactionView {
            target_node: self.target_node,
            stack_next: self.stack_next,
            from: self.from,
            to: self.to,
            free_allocation: self.free_allocation,
            code: self.code,
            flags: self.flags,
            data_size: self.data_size,
            offsets_size: self.offsets_size,
            data_address: self.data_address,
            sender_euid: self.sender_euid,
            txn_security_ctx_off: self.txn_security_ctx_off,
            file_list: self.file_list@,
        }
    }
}

impl TransactionView {
    /// Every object that the transaction names exists, and the frame below
    /// it on the stack is older than the transaction at index `me`.
    pub open spec fn valid(self, l: Lens, me: int) -> bool {
        &&& self.from < l.threads
        &&& self.to < l.procs
        &&& self.target_node.is_some() ==> self.target_node.unwrap() < l.nodes
        &&& self.stack_next.is_some() ==> self.stack_next.unwrap() < me
    }

    /// The sender does not wait for a reply.
    pub open spec fn is_oneway(self) -> bool {
        has_flag(self.flags, TF_ONE_WAY)
    }

    /// A call that expects a reply: it names a node and is not one-way.
    pub open spec fn is_sync_call(self) -> bool {
        self.target_node.is_some() && !self.is_oneway()
    }

    /// Whether the frame below this one on the stack is `onext`.
    pub open spec fn is_stacked_on(self, onext: Option<TxnId>) -> bool {
        self.stack_next == onext
    }
}

impl Transaction {
    /// Whether the sender does not wait for a reply.
    pub fn is_oneway(&self) -> (r: bool)
        ensures
            r == self@.is_oneway(),
    {
        self.flags & TF_ONE_WAY != 0
    }

    /// Whether this is a call that expects a reply.
    pub fn is_sync_call(&self) -> (r: bool)
        ensures
            r == self@.is_sync_call(),
    {
        self.target_node.is_some() && self.flags & TF_ONE_WAY == 0
    }

    /// Determines if the transaction is stacked on top of the given transaction.
    pub fn is_stacked_on(&self, onext: Option<TxnId>) -> (r: bool)
        ensures
            r == self@.is_stacked_on(onext),
    {
        match (self.stack_next, onext) {
            (None, None) => true,
            (Some(a), Some(b)) => a == b,
            _ => false,
        }
    }

    /// The frame below this one on the transaction stack, if there is one.
    pub fn clone_next(&self) -> (r: Option<TxnId>)
        ensures
            r == self@.stack_next,
    {
        self.stack_next
    }

    /// A non-oneway transaction hands the recipient's thread over at once,
    /// so that the recipient runs with the sender's priority.
    pub fn should_sync_wakeup(&self) -> (r: bool)
        ensures
            r == !self@.is_oneway(),
    {
        self.flags & TF_ONE_WAY == 0
    }
}

} // verus!

//! The control surface of an endpoint: the ioctls that set up a process,
//! and the queries that report on it.

use vstd::prelude::*;
use vstd::bytes::{
    spec_u32_to_le_bytes, spec_u64_to_le_bytes, u32_from_le_bytes, u32_to_le_bytes,
    u64_to_le_bytes,
};
use crate::binder::{Binder, BinderView};
use crate::commands::{u32_at, u64_at};
use crate::defs::{BinderError, ContextId, NodeId, ProcId, ThreadId, WorkItem};
use crate::lifecycle::{manager_node_id, BinderNodeDebugInfo, BinderNodeInfoForRef};
use crate::objects::FlatBinderObject;
use crate::process::ProcessView;
use crate::user_ptr::{UserSlicePtrReader, UserSlicePtrWriter};

verus! {

pub const BINDER_WRITE_READ: u32 = 0xc030_6201;
pub const BINDER_SET_MAX_THREADS: u32 = 0x4004_6205;
pub const BINDER_SET_CONTEXT_MGR: u32 = 0x4004_6207;
pub const BINDER_THREAD_EXIT: u32 = 0x4004_6208;
pub const BINDER_VERSION: u32 = 0xc004_6209;
pub const BINDER_GET_NODE_DEBUG_INFO: u32 = 0xc018_620b;
pub const BINDER_GET_NODE_INFO_FOR_REF: u32 = 0xc018_620c;
pub const BINDER_SET_CONTEXT_MGR_EXT: u32 = 0x4018_620d;
pub const BINDER_ENABLE_ONEWAY_SPAM_DETECTION: u32 = 0x4004_6210;

/// The version of the protocol that the engine speaks.
pub const BINDER_CURRENT_PROTOCOL_VERSION: u32 = 8;

/// The ioctl numbers are the canonical encodings of their direction,
/// family `'b'`, sequence number and payload size.
pub proof fn lemma_ioctl_encoding()
    ensures
        BINDER_WRITE_READ == crate::defs::ioc_spec(3, 0x62, 1, 48),
        BINDER_SET_MAX_THREADS == crate::defs::ioc_spec(1, 0x62, 5, 4),
        BINDER_SET_CONTEXT_MGR == crate::defs::ioc_spec(1, 0x62, 7, 4),
        BINDER_THREAD_EXIT == crate::defs::ioc_spec(1, 0x62, 8, 4),
        BINDER_VERSION == crate::defs::ioc_spec(3, 0x62, 9, 4),
        BINDER_GET_NODE_DEBUG_INFO == crate::defs::ioc_spec(3, 0x62, 11, 24),
        BINDER_GET_NODE_INFO_FOR_REF == crate::defs::ioc_spec(3, 0x62, 12, 24),
        BINDER_SET_CONTEXT_MGR_EXT == crate::defs::ioc_spec(1, 0x62, 13, 24),
        BINDER_ENABLE_ONEWAY_SPAM_DETECTION == crate::defs::ioc_spec(1, 0x62, 16, 4),
{
}

/// The bytes of a report on a node.
pub open spec fn debug_info_bytes(info: BinderNodeDebugInfo) -> Seq<u8> {
    spec_u64_to_le_bytes(info.ptr) + spec_u64_to_le_bytes(info.cookie) + spec_u32_to_le_bytes(
        info.has_strong_ref,
    ) + spec_u32_to_le_bytes(info.has_weak_ref)
}

/// The bytes of the counts of a node.
pub open spec fn info_for_ref_bytes(info: BinderNodeInfoForRef) -> Seq<u8> {
    spec_u32_to_le_bytes(info.handle) + spec_u32_to_le_bytes(info.strong_count)
        + spec_u32_to_le_bytes(info.weak_count) + spec_u32_to_le_bytes(info.reserved1)
        + spec_u32_to_le_bytes(info.reserved2) + spec_u32_to_le_bytes(info.reserved3)
}

/// The request for the counts of a node that 24 bytes stand for.
pub open spec fn info_for_ref_of(b: Seq<u8>) -> BinderNodeInfoForRef {
    BinderNodeInfoForRef {
        handle: u32_at(b, 0),
        strong_count: u32_at(b, 4),
        weak_count: u32_at(b, 8),
        reserved1: u32_at(b, 12),
        reserved2: u32_at(b, 16),
        reserved3: u32_at(b, 20),
    }
}

impl BinderView {
    /// The processes of context `c` whose process id is `pid`, among the
    /// first `k` members of the context.
    pub open spec fn procs_with_pid(self, c: int, pid: i32, k: int) -> Seq<ProcId>
        decreases k,
    {
        if k <= 0 {
            Seq::empty()
        } else {
            let p = self.contexts[c].all_procs[k - 1];
            if self.procs[p as int].pid == pid {
                self.procs_with_pid(c, pid, k - 1).push(p)
            } else {
                self.procs_with_pid(c, pid, k - 1)
            }
        }
    }

    /// Whether a piece of work asks for its reader to be woken at once:
    /// only a transaction that expects a reply does, so that the reader
    /// runs on behalf of the waiting sender.
    pub open spec fn should_sync_wakeup(self, work: WorkItem) -> bool {
        match work {
            WorkItem::Transaction(t) => !self.txns[t as int].is_oneway(),
            _ => false,
        }
    }

    /// Whether thread `th` has something to read without waiting.
    pub open spec fn poll(self, th: int) -> bool {
        let thread = self.threads[th];
        thread.return_work.is_some() || thread.next_work().is_some() || (
        thread.uses_process_queue() && self.procs[thread.process as int].work.len() > 0)
    }

    /// What a control ioctl of process `p`, called by task `tid`, answers,
    /// and the engine after it. The calling task gets a thread if it has
    /// none. `arg` is what userspace passed, `caller_euid` the effective
    /// uid of the caller, `hook` the objection of the security hook to a
    /// new manager. `Fault` when `arg` is too short, `BadArg` for an ioctl
    /// that the engine does not know.
    pub open spec fn ioctl_write(
        self,
        p: int,
        tid: i32,
        cmd: u32,
        arg: Seq<u8>,
        caller_euid: u32,
        hook: Option<BinderError>,
    ) -> (BinderView, Result<i32, BinderError>) {
        let th = self.get_current_thread_result(p, tid) as int;
        let s0 = self.get_current_thread(p, tid);
        if cmd == BINDER_SET_MAX_THREADS {
            if arg.len() < 4 {
                (s0, Err(BinderError::Fault))
            } else {
                (s0.with_proc(p, ProcessView { max_threads: u32_at(arg, 0), ..s0.procs[p] }), Ok(0))
            }
        } else if cmd == BINDER_SET_CONTEXT_MGR || cmd == BINDER_SET_CONTEXT_MGR_EXT {
            if cmd == BINDER_SET_CONTEXT_MGR_EXT && arg.len() < 24 {
                (s0, Err(BinderError::Fault))
            } else {
                let info = if cmd == BINDER_SET_CONTEXT_MGR_EXT {
                    Some(FlatBinderObject::decode_spec(arg.subrange(0, 24)))
                } else {
                    None
                };
                let (ptr, cookie, flags) = manager_node_id(info);
                (
                    s0.set_as_manager(p, ptr, cookie, flags, caller_euid, hook),
                    match s0.set_as_manager_result(p, ptr, cookie, caller_euid, hook) {
                        Ok(()) => Ok(0),
                        Err(e) => Err(e),
                    },
                )
            }
        } else if cmd == BINDER_THREAD_EXIT {
            (s0.remove_thread(p, th as usize), Ok(0))
        } else if cmd == BINDER_ENABLE_ONEWAY_SPAM_DETECTION {
            (s0, Ok(0))
        } else {
            (s0, Err(BinderError::BadArg))
        }
    }
}

impl Binder {
    /// The processes of context `c` whose process id is `pid`.
    pub fn get_procs_with_pid(&self, c: ContextId, pid: i32) -> (r: Vec<ProcId>)
        requires
            self@.wf(),
            c < self@.contexts.len(),
        ensures
            r@ == self@.procs_with_pid(c as int, pid, self@.contexts[c as int].all_procs.len() as int),
    {
        let mut out: Vec<ProcId> = Vec::new();
        let mut i: usize = 0;
        assert(self@.contexts[c as int].valid(self@.lens()));
        while i < self.contexts[c].manager.all_procs.len()
            invariant
                self@.wf(),
                c < self@.contexts.len(),
                i <= self@.contexts[c as int].all_procs.len(),
                out@ == self@.procs_with_pid(c as int, pid, i as int),
            decreases self@.contexts[c as int].all_procs.len() - i,
        {
            assert(self@.contexts[c as int].valid(self@.lens()));
            let p: ProcId = self.contexts[c].manager.all_procs[i];
            assert(self@.contexts[c as int].all_procs[i as int] < self@.procs.len());
            if self.procs[p].pid == pid {
                out.push(p);
            }
            i = i + 1;
        }
        out
    }

    /// Whether a piece of work asks for its reader to be woken at once.
    pub fn should_sync_wakeup(&self, work: WorkItem) -> (r: bool)
        requires
            self@.wf(),
            work.valid(self@.lens()),
        ensures
            r == self@.should_sync_wakeup(work),
    {
        match work {
            WorkItem::Transaction(t) => self.txns[t].should_sync_wakeup(),
            _ => false,
        }
    }

    /// Whether thread `th` has something to read without waiting.
    pub fn poll(&self, th: ThreadId) -> (r: bool)
        requires
            self@.wf(),
            th < self@.threads.len(),
        ensures
            r == self@.poll(th as int),
    {
        assert(self@.threads[th as int].valid(self@.lens()));
        let thread = &self.threads[th];
        thread.return_work.is_some() || (thread.process_work_list && thread.work_list.len() > 0)
            || (thread.should_use_process_work_queue()
            && self.procs[thread.process].inner.work.len() > 0)
    }

    /// Handles a control ioctl of process `p`, called by task `tid`.
    pub fn ioctl_write(
        &mut self,
        p: ProcId,
        tid: i32,
        cmd: u32,
        reader: &mut UserSlicePtrReader,
        caller_euid: u32,
        hook: Option<BinderError>,
    ) -> (r: Result<i32, BinderError>)
        requires
            old(self)@.wf(),
            p < old(self)@.procs.len(),
            old(reader).wf(),
        ensures
            final(self)@ == old(self)@.ioctl_write(
                p as int,
                tid,
                cmd,
                old(reader).remaining(),
                caller_euid,
                hook,
            ).0,
            r == old(self)@.ioctl_write(
                p as int,
                tid,
                cmd,
                old(reader).remaining(),
                caller_euid,
                hook,
            ).1,
            final(reader).wf(),
            final(self)@.wf(),
            final(self)@.extends(old(self)@),
            old(self)@.lens().le(final(self)@.lens()),
            final(self)@.procs.len() == old(self)@.procs.len(),
    {
        let th: ThreadId = self.get_current_thread(p, tid);
        if cmd == BINDER_SET_MAX_THREADS {
            let max: u32 = match reader.read::<u32>() {
                Ok(m) => m,
                Err(e) => {
                    return Err(e);
                },
            };
            self.set_max_threads(p, max);
            Ok(0)
        } else if cmd == BINDER_SET_CONTEXT_MGR {
            match self.set_as_manager(p, None, caller_euid, hook) {
                Ok(()) => Ok(0),
                Err(e) => Err(e),
            }
        } else if cmd == BINDER_SET_CONTEXT_MGR_EXT {
            let obj: FlatBinderObject = match reader.read::<FlatBinderObject>() {
                Ok(o) => o,
                Err(e) => {
                    return Err(e);
                },
            };
            match self.set_as_manager(p, Some(obj), caller_euid, hook) {
                Ok(()) => Ok(0),
                Err(e) => Err(e),
            }
        } else if cmd == BINDER_THREAD_EXIT {
            self.remove_thread(p, th);
            Ok(0)
        } else if cmd == BINDER_ENABLE_ONEWAY_SPAM_DETECTION {
            Ok(0)
        } else {
            Err(BinderError::BadArg)
        }
    }

    /// Handles `BINDER_VERSION`: writes the version of the protocol.
    pub fn version(writer: &mut UserSlicePtrWriter) -> (r: Result<(), BinderError>)
        requires
            old(writer).wf(),
        ensures
            final(writer).wf(),
            final(writer)@ == old(writer)@.put(spec_u32_to_le_bytes(BINDER_CURRENT_PROTOCOL_VERSION)),
            r.is_ok() == old(writer)@.fits(4),
    {
        proof {
            vstd::bytes::lemma_auto_spec_u32_to_from_le_bytes();
        }
        let bytes: Vec<u8> = u32_to_le_bytes(BINDER_CURRENT_PROTOCOL_VERSION);
        writer.write_slice(bytes.as_slice())
    }

    /// Handles `BINDER_GET_NODE_DEBUG_INFO` for process `p`: reads the
    /// address to start from and writes the report on the next node.
    pub fn ioctl_node_debug_info(&self, p: ProcId, reader: &mut UserSlicePtrReader, writer: &mut UserSlicePtrWriter) -> (r: Result<
        (),
        BinderError,
    >)
        requires
            self@.wf(),
            p < self@.procs.len(),
            old(reader).wf(),
            old(writer).wf(),
        ensures
            final(reader).wf(),
            final(writer).wf(),
            old(reader).remaining().len() < 8 ==> r == Err::<(), BinderError>(BinderError::Fault)
                && final(writer)@ == old(writer)@,
            old(reader).remaining().len() >= 8 ==> ({
                let out = debug_info_bytes(
                    self@.get_node_debug_info(p as int, u64_at(old(reader).remaining(), 0) as usize),
                );
                &&& final(writer)@ == old(writer)@.put(out)
                &&& r.is_ok() == old(writer)@.fits(out.len() as int)
            }),
    {
        let ghost b = reader.remaining();
        let ptr: u64 = match reader.read::<u64>() {
            Ok(x) => x,
            Err(e) => {
                return Err(e);
            },
        };
        let info: BinderNodeDebugInfo = self.get_node_debug_info(p, ptr as usize);
        let mut out: Vec<u8> = u64_to_le_bytes(info.ptr);
        let mut x: Vec<u8> = u64_to_le_bytes(info.cookie);
        out.append(&mut x);
        let mut x: Vec<u8> = u32_to_le_bytes(info.has_strong_ref);
        out.append(&mut x);
        let mut x: Vec<u8> = u32_to_le_bytes(info.has_weak_ref);
        out.append(&mut x);
        writer.write_slice(out.as_slice())
    }

    /// Handles `BINDER_GET_NODE_INFO_FOR_REF` for process `p`: reads the
    /// request, and writes the counts of the node behind the handle.
    pub fn ioctl_node_info_for_ref(&mut self, p: ProcId, reader: &mut UserSlicePtrReader, writer: &mut UserSlicePtrWriter) -> (r: Result<
        (),
        BinderError,
    >)
        requires
            old(self)@.wf(),
            p < old(self)@.procs.len(),
            old(reader).wf(),
            old(writer).wf(),
        ensures
            final(reader).wf(),
            final(writer).wf(),
            final(self)@.wf(),
            final(self)@.extends(old(self)@),
            final(self)@.lens() == old(self)@.lens(),
            old(reader).remaining().len() < 24 ==> r == Err::<(), BinderError>(BinderError::Fault)
                && final(writer)@ == old(writer)@ && final(self)@ == old(self)@,
            old(reader).remaining().len() >= 24 ==> ({
                let request = info_for_ref_of(old(reader).remaining().subrange(0, 24));
                &&& final(self)@ == old(self)@.get_node_info_from_ref(p as int, request)
                &&& match old(self)@.get_node_info_from_ref_result(p as int, request) {
                    Err(e) => r == Err::<(), BinderError>(e) && final(writer)@ == old(writer)@,
                    Ok(out) => final(writer)@ == old(writer)@.put(info_for_ref_bytes(out)) && r.is_ok()
                        == old(writer)@.fits(info_for_ref_bytes(out).len() as int),
                }
            }),
    {
        let b: Vec<u8> = match reader.read_slice(24) {
            Ok(b) => b,
            Err(e) => {
                return Err(e);
            },
        };
        let request = BinderNodeInfoForRef {
            handle: get_u32(b.as_slice(), 0),
            strong_count: get_u32(b.as_slice(), 4),
            weak_count: get_u32(b.as_slice(), 8),
            reserved1: get_u32(b.as_slice(), 12),
            reserved2: get_u32(b.as_slice(), 16),
            reserved3: get_u32(b.as_slice(), 20),
        };
        let out: BinderNodeInfoForRef = match self.get_node_info_from_ref(p, request) {
            Ok(o) => o,
            Err(e) => {
                return Err(e);
            },
        };
        let mut bytes: Vec<u8> = u32_to_le_bytes(out.handle);
        let mut x: Vec<u8> = u32_to_le_bytes(out.strong_count);
        bytes.append(&mut x);
        let mut x: Vec<u8> = u32_to_le_bytes(out.weak_count);
        bytes.append(&mut x);
        let mut x: Vec<u8> = u32_to_le_bytes(out.reserved1);
        bytes.append(&mut x);
        let mut x: Vec<u8> = u32_to_le_bytes(out.reserved2);
        bytes.append(&mut x);
        let mut x: Vec<u8> = u32_to_le_bytes(out.reserved3);
        bytes.append(&mut x);
        writer.write_slice(bytes.as_slice())
    }

    /// What there is to print about node `n`.
    pub fn node_debug(&self, n: NodeId) -> (r: NodeDebug)
        requires
            n < self@.nodes.len(),
        ensures
            r == self@.node_debug(n as int),
    {
        let node = &self.nodes[n];
        NodeDebug {
            global_id: node.global_id,
            ptr: node.ptr,
            cookie: node.cookie,
            strong: node.inner.strong.count,
            has_strong: node.inner.strong.has_count,
            weak: node.inner.weak.count,
            has_weak: node.inner.weak.has_count,
            active_inc_refs: node.inner.active_inc_refs,
        }
    }

    /// Collects what there is to print about process `p`.
    pub fn debug_info(&self, p: ProcId) -> (r: ProcessDebug)
        requires
            self@.wf(),
            p < self@.procs.len(),
        ensures
            r.pid == self@.procs[p as int].pid,
            r.is_manager == self@.procs[p as int].is_manager,
            r.started_threads == self@.procs[p as int].started_thread_count,
            r.has_proc_work == (self@.procs[p as int].work.len() > 0),
            r.ready_thread_ids@ == Seq::new(
                self@.procs[p as int].ready_threads.len(),
                |i: int| self@.threads[self@.procs[p as int].ready_threads[i] as int].id,
            ),
            r.nodes@ == Seq::new(
                self@.procs[p as int].nodes.len(),
                |i: int| self@.node_debug(self@.procs[p as int].nodes[i] as int),
            ),
            r.threads@ == self@.procs[p as int].threads,
    {
        assert(self@.procs[p as int].valid(self@.lens()));
        let pr = &self.procs[p];
        let mut ready: Vec<i32> = Vec::new();
        let mut i: usize = 0;
        while i < pr.inner.ready_threads.len()
            invariant
                self@.wf(),
                p < self@.procs.len(),
                pr@ == self@.procs[p as int],
                i <= pr@.ready_threads.len(),
                ready@.len() == i,
                forall|j: int| 0 <= j < i ==> ready@[j] == self@.threads[pr@.ready_threads[j] as int].id,
            decreases pr@.ready_threads.len() - i,
        {
            assert(self@.procs[p as int].valid(self@.lens()));
            let t: ThreadId = pr.inner.ready_threads[i];
            assert(pr@.ready_threads[i as int] < self@.threads.len());
            ready.push(self.threads[t].id);
            i = i + 1;
        }
        let mut nodes: Vec<NodeDebug> = Vec::new();
        let mut k: usize = 0;
        while k < pr.inner.nodes.len()
            invariant
                self@.wf(),
                p < self@.procs.len(),
                pr@ == self@.procs[p as int],
                k <= pr@.nodes.len(),
                nodes@.len() == k,
                forall|j: int| 0 <= j < k ==> nodes@[j] == self@.node_debug(pr@.nodes[j] as int),
            decreases pr@.nodes.len() - k,
        {
            assert(self@.procs[p as int].valid(self@.lens()));
            let n: NodeId = pr.inner.nodes[k];
            assert(pr@.nodes[k as int] < self@.nodes.len());
            nodes.push(self.node_debug(n));
            k = k + 1;
        }
        let threads: Vec<ThreadId> = self.thread_ids(p);
        let r = ProcessDebug {
            pid: pr.pid,
            is_manager: pr.inner.is_manager,
            started_threads: pr.inner.started_thread_count,
            has_proc_work: pr.inner.work.len() > 0,
            ready_thread_ids: ready,
            nodes,
            threads,
        };
        proof {
            assert(r.ready_thread_ids@ =~= Seq::new(
                self@.procs[p as int].ready_threads.len(),
                |i: int| self@.threads[self@.procs[p as int].ready_threads[i] as int].id,
            ));
            assert(r.nodes@ =~= Seq::new(
                self@.procs[p as int].nodes.len(),
                |i: int| self@.node_debug(self@.procs[p as int].nodes[i] as int),
            ));
        }
        r
    }
}

fn get_u32(b: &[u8], at: usize) -> (r: u32)
    requires
        at + 4 <= b@.len(),
        at <= 24,
    ensures
        r == u32_at(b@, at as int),
{
    u32_from_le_bytes(vstd::slice::slice_subrange(b, at, at + 4))
}

/// What there is to print about a node.
#[derive(Clone, Copy, Debug, PartialEq, Eq, Structural)]
pub struct NodeDebug {
    pub global_id: u64,
    pub ptr: usize,
    pub cookie: usize,
    pub strong: usize,
    pub has_strong: bool,
    pub weak: usize,
    pub has_weak: bool,
    pub active_inc_refs: u8,
}

/// What there is to print about a process.
#[derive(Debug)]
pub struct ProcessDebug {
    pub pid: i32,
    pub is_manager: bool,
    pub started_threads: u32,
    pub has_proc_work: bool,
    /// The task ids of the threads that wait for work.
    pub ready_thread_ids: Vec<i32>,
    pub nodes: Vec<NodeDebug>,
    pub threads: Vec<ThreadId>,
}

impl BinderView {
    /// What there is to print about node `n`.
    pub open spec fn node_debug(self, n: int) -> NodeDebug {
        let node = self.nodes[n];
        NodeDebug {
            global_id: node.global_id,
            ptr: node.ptr,
            cookie: node.cookie,
            strong: node.refs.strong.count,
            has_strong: node.refs.strong.has_count,
            weak: node.refs.weak.count,
            has_weak: node.refs.weak.has_count,
            active_inc_refs: node.refs.active_inc_refs,
        }
    }
}

} // verus!

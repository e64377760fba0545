//! Processes: the per-process tables, queues and counters.

use vstd::prelude::*;
use std::collections::VecDeque;
use crate::defs::{
    ids_below, items_valid, ContextId, DeathId, Lens, NodeId, ThreadId, WorkItem,
    MAX_MAPPING_SIZE,
};
use crate::node::NodeRef;
use crate::node_refs::{rows_valid, HandleEntry, ProcessNodeRefs};
use crate::range_alloc::{RangeAllocator, Slot};

verus! {

/// What a committed buffer carries until it is freed.
#[derive(Debug)]
pub struct AllocationInfo {
    /// Range within the buffer that holds the offsets of the embedded objects.
    pub offsets: Option<(usize, usize)>,
    /// The reference that keeps the target node alive while the
    /// transaction is in the buffer. Not set for replies.
    pub target_node: Option<NodeRef>,
    /// The node whose next one-way transaction may go out once this buffer is freed.
    pub oneway_node: Option<NodeId>,
    /// Zero the payload when the buffer is freed.
    pub clear_on_free: bool,
}

impl AllocationInfo {
    /// The nodes that the metadata names exist.
    pub open spec fn valid(self, l: Lens) -> bool {
        &&& self.target_node.is_some() ==> self.target_node.unwrap().node < l.nodes
        &&& self.oneway_node.is_some() ==> self.oneway_node.unwrap() < l.nodes
    }

    /// Metadata that says nothing.
    pub fn new() -> (r: Self)
        ensures
            r == (AllocationInfo {
                offsets: None,
                target_node: None,
                oneway_node: None,
                clear_on_free: false,
            }),
    {
        AllocationInfo { offsets: None, target_node: None, oneway_node: None, clear_on_free: false }
    }
}

/// A buffer handed out by the arena of a process. Whoever holds it either
/// commits it, so that the recipient can look it up, or frees it.
#[derive(Debug)]
pub struct Allocation {
    pub offset: usize,
    pub size: usize,
    /// The address under which the recipient's userspace sees the buffer.
    pub ptr: usize,
    pub info: Option<AllocationInfo>,
}

/// The buffer arena of a process.
pub struct Mapping {
    /// Where the arena starts in the owner's address space.
    pub address: usize,
    pub alloc: RangeAllocator<AllocationInfo>,
    /// The bytes of the arena.
    pub pages: Vec<u8>,
}

/// A buffer arena as a mathematical value.
pub struct MappingView {
    pub address: usize,
    pub size: usize,
    pub slots: Seq<Slot<AllocationInfo>>,
    pub pages: Seq<u8>,
}

impl View for Mapping {
    type V = MappingView;

    open spec fn view(&self) -> MappingView {
        MappingView {
            address: self.address,
            size: self.alloc.size,
            slots: self.alloc.slots@,
            pages: self.pages@,
        }
    }
}

/// The metadata of every slot names nodes that exist.
pub open spec fn slots_valid(slots: Seq<Slot<AllocationInfo>>, l: Lens) -> bool {
    forall|i: int|
        0 <= i < slots.len() && (#[trigger] slots[i]).info.is_some() ==> slots[i].info.unwrap().valid(
            l,
        )
}

/// The bytes with `data` written at `at`.
pub open spec fn overwrite(pages: Seq<u8>, at: int, data: Seq<u8>) -> Seq<u8> {
    Seq::new(
        pages.len(),
        |i: int|
            if at <= i < at + data.len() {
                data[i - at]
            } else {
                pages[i]
            },
    )
}

/// The bytes with `len` zeros written at `at`.
pub open spec fn zeroed(pages: Seq<u8>, at: int, len: int) -> Seq<u8> {
    Seq::new(
        pages.len(),
        |i: int|
            if at <= i < at + len {
                0u8
            } else {
                pages[i]
            },
    )
}

/// Cutting a reservation keeps the metadata of every slot valid.
pub proof fn lemma_split_slots_valid(slots: Seq<Slot<AllocationInfo>>, i: int, size: usize, l: Lens)
    requires
        slots_valid(slots, l),
        0 <= i < slots.len(),
    ensures
        slots_valid(crate::range_alloc::split_at(slots, i, size), l),
{
    let n = crate::range_alloc::split_at(slots, i, size);
    assert forall|k: int| 0 <= k < n.len() && (#[trigger] n[k]).info.is_some() implies n[k].info.unwrap().valid(
        l,
    ) by {
        if k < i {
            assert(n[k] == slots[k]);
        } else if k > i + 1 {
            assert(n[k] == slots[k - 1]);
        }
    }
}

/// Freeing a slot without metadata keeps the metadata of every slot valid.
pub proof fn lemma_release_slots_valid(slots: Seq<Slot<AllocationInfo>>, i: int, l: Lens)
    requires
        slots_valid(slots, l),
        crate::range_alloc::info_only_committed(slots),
        0 <= i < slots.len(),
    ensures
        slots_valid(crate::range_alloc::release_at(slots, i), l),
{
    let n = crate::range_alloc::release_at(slots, i);
    assert forall|k: int| 0 <= k < n.len() && (#[trigger] n[k]).info.is_some() implies n[k].info.unwrap().valid(
        l,
    ) by {
        if k - 1 >= 0 && k - 1 < slots.len() {
            assert(slots[k - 1].info.is_some() ==> slots[k - 1].info.unwrap().valid(l));
        }
        if k < slots.len() {
            assert(slots[k].info.is_some() ==> slots[k].info.unwrap().valid(l));
        }
        if k + 1 < slots.len() {
            assert(slots[k + 1].info.is_some() ==> slots[k + 1].info.unwrap().valid(l));
        }
        if k + 2 < slots.len() {
            assert(slots[k + 2].info.is_some() ==> slots[k + 2].info.unwrap().valid(l));
        }
    }
}

/// Replacing a slot by one with valid metadata keeps the metadata of every slot valid.
pub proof fn lemma_update_slots_valid(
    slots: Seq<Slot<AllocationInfo>>,
    i: int,
    slot: Slot<AllocationInfo>,
    l: Lens,
)
    requires
        slots_valid(slots, l),
        0 <= i < slots.len(),
        slot.info.is_some() ==> slot.info.unwrap().valid(l),
    ensures
        slots_valid(slots.update(i, slot), l),
        slots[i].info.is_some() ==> slots[i].info.unwrap().valid(l),
{
    let n = slots.update(i, slot);
    assert forall|k: int| 0 <= k < n.len() && (#[trigger] n[k]).info.is_some() implies n[k].info.unwrap().valid(
        l,
    ) by {
        if k != i {
            assert(n[k] == slots[k]);
        }
    }
}

impl MappingView {
    /// The allocator is well-formed, there is one byte per byte of the
    /// arena, and the arena ends inside the address space.
    pub open spec fn wf(self) -> bool {
        &&& crate::range_alloc::tiles(self.slots, self.size as int)
        &&& crate::range_alloc::info_only_committed(self.slots)
        &&& crate::range_alloc::coalesced(self.slots)
        &&& crate::range_alloc::has_free(self.slots)
        &&& self.pages.len() == self.size
        &&& self.address + self.size <= usize::MAX
        &&& self.size <= MAX_MAPPING_SIZE
    }

    pub open spec fn valid(self, l: Lens) -> bool {
        &&& self.wf()
        &&& slots_valid(self.slots, l)
    }

    /// An arena of `size` bytes at `address`, all free and all zero.
    pub open spec fn fresh(address: usize, size: usize) -> MappingView {
        MappingView {
            address,
            size,
            slots: seq![Slot::<AllocationInfo> {
                offset: 0,
                size,
                state: crate::range_alloc::SlotState::Free,
                info: None,
            }],
            pages: Seq::new(size as nat, |i: int| 0u8),
        }
    }
}

impl Mapping {
    /// An arena of `size` bytes at `address`, all free and all zero.
    pub fn new(address: usize, size: usize) -> (r: Self)
        requires
            address + size <= usize::MAX,
            size <= MAX_MAPPING_SIZE,
        ensures
            r@ == MappingView::fresh(address, size),
            r@.wf(),
    {
        let mut pages: Vec<u8> = Vec::new();
        let mut i: usize = 0;
        while i < size
            invariant
                i <= size,
                pages@ == Seq::new(i as nat, |k: int| 0u8),
            decreases size - i,
        {
            pages.push(0);
            i = i + 1;
            proof {
                assert(pages@ =~= Seq::new(i as nat, |k: int| 0u8));
            }
        }
        Mapping { address, alloc: RangeAllocator::new(size), pages }
    }

    /// Writes `data` at `offset`. Returns `false`, and writes nothing, when
    /// the bytes do not lie inside the arena.
    pub fn write(&mut self, offset: usize, data: &[u8]) -> (ok: bool)
        requires
            old(self)@.pages.len() == old(self)@.size,
        ensures
            ok == (offset + data@.len() <= old(self)@.size),
            ok ==> final(self)@ == (MappingView {
                pages: overwrite(old(self)@.pages, offset as int, data@),
                ..old(self)@
            }),
            !ok ==> final(self)@ == old(self)@,
    {
        if offset > self.alloc.size || data.len() > self.alloc.size - offset {
            return false;
        }
        let mut i: usize = 0;
        while i < data.len()
            invariant
                i <= data@.len(),
                offset + data@.len() <= self.alloc.size,
                self.pages@.len() == self.alloc.size,
                self.address == old(self).address,
                self.alloc == old(self).alloc,
                self.pages@ == overwrite(old(self).pages@, offset as int, data@.subrange(0, i as int)),
            decreases data@.len() - i,
        {
            self.pages[offset + i] = data[i];
            i = i + 1;
            proof {
                assert(self.pages@ =~= overwrite(
                    old(self).pages@,
                    offset as int,
                    data@.subrange(0, i as int),
                ));
            }
        }
        proof {
            assert(data@.subrange(0, data@.len() as int) =~= data@);
        }
        true
    }

    /// Zeroes `len` bytes at `offset`. Returns `false`, and changes
    /// nothing, when the range does not lie inside the arena.
    pub fn clear(&mut self, offset: usize, len: usize) -> (ok: bool)
        requires
            old(self)@.pages.len() == old(self)@.size,
        ensures
            ok == (offset + len <= old(self)@.size),
            ok ==> final(self)@ == (MappingView {
                pages: zeroed(old(self)@.pages, offset as int, len as int),
                ..old(self)@
            }),
            !ok ==> final(self)@ == old(self)@,
    {
        if offset > self.alloc.size || len > self.alloc.size - offset {
            return false;
        }
        let mut i: usize = 0;
        while i < len
            invariant
                i <= len,
                offset + len <= self.alloc.size,
                self.pages@.len() == self.alloc.size,
                self.address == old(self).address,
                self.alloc == old(self).alloc,
                self.pages@ == zeroed(old(self).pages@, offset as int, i as int),
            decreases len - i,
        {
            self.pages[offset + i] = 0;
            i = i + 1;
            proof {
                assert(self.pages@ =~= zeroed(old(self).pages@, offset as int, i as int));
            }
        }
        true
    }

    /// Copies `len` bytes at `offset` out of the arena; `None` when the
    /// range does not lie inside the arena.
    pub fn read(&self, offset: usize, len: usize) -> (r: Option<Vec<u8>>)
        requires
            self@.pages.len() == self@.size,
        ensures
            r.is_some() == (offset + len <= self@.size),
            r.is_some() ==> r.unwrap()@ == self@.pages.subrange(offset as int, offset + len),
    {
        if offset > self.alloc.size || len > self.alloc.size - offset {
            return None;
        }
        let mut out: Vec<u8> = Vec::new();
        let mut i: usize = 0;
        while i < len
            invariant
                i <= len,
                offset + len <= self.alloc.size,
                self.pages@.len() == self.alloc.size,
                out@ == self.pages@.subrange(offset as int, offset + i),
            decreases len - i,
        {
            out.push(self.pages[offset + i]);
            i = i + 1;
            proof {
                assert(out@ =~= self.pages@.subrange(offset as int, offset + i));
            }
        }
        Some(out)
    }
}

pub struct ProcessInner {
    pub is_manager: bool,
    pub is_dead: bool,
    /// The threads of the process.
    pub threads: Vec<ThreadId>,
    /// Threads that wait for work from the process queue, longest wait first.
    pub ready_threads: Vec<ThreadId>,
    /// Work for any thread of the pool, oldest first.
    pub work: VecDeque<WorkItem>,
    pub mapping: Option<Mapping>,
    /// The nodes that the process owns.
    pub nodes: Vec<NodeId>,
    /// Death notifications written to a reader and not yet acknowledged.
    pub delivered_deaths: Vec<DeathId>,
    /// Threads that the engine asked for and that have not registered yet.
    pub requested_thread_count: u32,
    /// Size of the thread pool that the process allows.
    pub max_threads: u32,
    /// Threads that registered with the pool at the engine's request.
    pub started_thread_count: u32,
    /// Deferred work to do: a set of `PROC_DEFER_*` bits.
    pub defer_work: u8,
}

pub struct Process {
    pub ctx: ContextId,
    /// The process id of the task that opened the endpoint.
    pub pid: i32,
    /// The effective uid captured when the endpoint was opened.
    pub euid: u32,
    pub inner: ProcessInner,
    pub node_refs: ProcessNodeRefs,
}

/// A process as a mathematical value.
pub struct ProcessView {
    pub ctx: ContextId,
    pub pid: i32,
    pub euid: u32,
    pub is_manager: bool,
    pub is_dead: bool,
    pub threads: Seq<ThreadId>,
    pub ready_threads: Seq<ThreadId>,
    pub work: Seq<WorkItem>,
    pub mapping: Option<MappingView>,
    pub nodes: Seq<NodeId>,
    pub delivered_deaths: Seq<DeathId>,
    pub requested_thread_count: u32,
    pub max_threads: u32,
    pub started_thread_count: u32,
    pub defer_work: u8,
    pub node_refs: Seq<HandleEntry>,
}

impl View for Process {
    type V = ProcessView;

    open spec fn view(&self) -> ProcessView {
        ProcessView {
            ctx: self.ctx,
            pid: self.pid,
            euid: self.euid,
            is_manager: self.inner.is_manager,
            is_dead: self.inner.is_dead,
            threads: self.inner.threads@,
            ready_threads: self.inner.ready_threads@,
            work: self.inner.work@,
            mapping: match self.inner.mapping {
                Some(m) => Some(m@),
                None => None,
            },
            nodes: self.inner.nodes@,
            delivered_deaths: self.inner.delivered_deaths@,
            requested_thread_count: self.inner.requested_thread_count,
            max_threads: self.inner.max_threads,
            started_thread_count: self.inner.started_thread_count,
            defer_work: self.inner.defer_work,
            node_refs: self.node_refs.entries@,
        }
    }
}

impl ProcessView {
    /// The tables are well-formed and every object that the process names exists.
    pub open spec fn valid(self, l: Lens) -> bool {
        &&& self.ctx < l.contexts
        &&& ids_below(self.threads, l.threads)
        &&& ids_below(self.ready_threads, l.threads)
        &&& items_valid(self.work, l)
        &&& self.mapping.is_some() ==> self.mapping.unwrap().valid(l)
        &&& ids_below(self.nodes, l.nodes)
        &&& ids_below(self.delivered_deaths, l.deaths)
        &&& crate::node_refs::handles_sorted(self.node_refs)
        &&& crate::node_refs::ids_unique(self.node_refs)
        &&& rows_valid(self.node_refs, l)
    }

    /// A process that has just opened its endpoint.
    pub open spec fn fresh(ctx: ContextId, pid: i32, euid: u32) -> ProcessView {
        ProcessView {
            ctx,
            pid,
            euid,
            is_manager: false,
            is_dead: false,
            threads: Seq::empty(),
            ready_threads: Seq::empty(),
            work: Seq::empty(),
            mapping: None,
            nodes: Seq::empty(),
            delivered_deaths: Seq::empty(),
            requested_thread_count: 0,
            max_threads: 0,
            started_thread_count: 0,
            defer_work: 0,
            node_refs: Seq::empty(),
        }
    }

    /// The process after a thread that the engine asked for registered.
    pub open spec fn register_thread(self) -> ProcessView {
        if self.requested_thread_count == 0 || self.started_thread_count == u32::MAX {
            self
        } else {
            ProcessView {
                requested_thread_count: (self.requested_thread_count - 1) as u32,
                started_thread_count: (self.started_thread_count + 1) as u32,
                ..self
            }
        }
    }

    /// The pool wants one more thread: none is asked for already, none
    /// waits for work, and the pool is not full.
    pub open spec fn wants_thread(self) -> bool {
        self.requested_thread_count == 0 && self.ready_threads.len() == 0
            && self.started_thread_count < self.max_threads
    }

    /// The process after `needs_thread`.
    pub open spec fn needs_thread(self) -> ProcessView {
        if self.wants_thread() {
            ProcessView { requested_thread_count: 1, ..self }
        } else {
            self
        }
    }
}

impl Process {
    pub fn new(ctx: ContextId, pid: i32, euid: u32) -> (r: Self)
        ensures
            r@ == ProcessView::fresh(ctx, pid, euid),
    {
        Process {
            ctx,
            pid,
            euid,
            inner: ProcessInner {
                is_manager: false,
                is_dead: false,
                threads: Vec::new(),
                ready_threads: Vec::new(),
                work: VecDeque::new(),
                mapping: None,
                nodes: Vec::new(),
                delivered_deaths: Vec::new(),
                requested_thread_count: 0,
                max_threads: 0,
                started_thread_count: 0,
                defer_work: 0,
            },
            node_refs: ProcessNodeRefs::new(),
        }
    }

    /// A thread that the engine asked for registers with the pool. Returns
    /// `false`, and counts nothing, when none was asked for.
    pub fn register_thread(&mut self) -> (r: bool)
        ensures
            final(self)@ == old(self)@.register_thread(),
            r == (old(self)@.requested_thread_count != 0 && old(self)@.started_thread_count
                != u32::MAX),
    {
        if self.inner.requested_thread_count == 0 || self.inner.started_thread_count == u32::MAX {
            return false;
        }
        self.inner.requested_thread_count = self.inner.requested_thread_count - 1;
        self.inner.started_thread_count = self.inner.started_thread_count + 1;
        true
    }

    /// Says whether the pool wants one more thread, and if so counts it as asked for.
    pub fn needs_thread(&mut self) -> (r: bool)
        ensures
            final(self)@ == old(self)@.needs_thread(),
            r == old(self)@.wants_thread(),
    {
        let ret: bool = self.inner.requested_thread_count == 0 && self.inner.ready_threads.len()
            == 0 && self.inner.started_thread_count < self.inner.max_threads;
        if ret {
            self.inner.requested_thread_count = 1;
        }
        ret
    }

    pub fn set_max_threads(&mut self, max: u32)
        ensures
            final(self)@ == (ProcessView { max_threads: max, ..old(self)@ }),
    {
        self.inner.max_threads = max;
    }

    pub fn is_dead(&self) -> (r: bool)
        ensures
            r == self@.is_dead,
    {
        self.inner.is_dead
    }
}

} // verus!

//! The buffer arena of a process as transactions see it: buffers are
//! reserved, filled, committed so that the recipient can find them, looked
//! up by address and freed.

use vstd::prelude::*;
use crate::binder::{Binder, BinderView};
use crate::defs::{BinderError, ProcId, MAX_MAPPING_SIZE};
use crate::process::{
    lemma_release_slots_valid, lemma_split_slots_valid, lemma_update_slots_valid, overwrite,
    zeroed, Allocation, AllocationInfo, Mapping, MappingView, ProcessView,
};
use crate::range_alloc::{
    first_at, first_fit, lemma_first_at, lemma_first_fit, lemma_release_keeps_wf,
    lemma_restate_keeps_wf, lemma_split_keeps_wf, lemma_tiles_bounded, release_at, split_at, Slot,
    SlotState,
};

verus! {

/// The size of the arena that a mapping request for `[start, end)` gets.
pub open spec fn mapping_size(start: usize, end: usize) -> usize {
    if end - start < MAX_MAPPING_SIZE {
        (end - start) as usize
    } else {
        MAX_MAPPING_SIZE
    }
}

impl BinderView {
    /// The engine with the buffer arena of process `p` replaced.
    pub open spec fn with_mapping(self, p: int, m: MappingView) -> BinderView {
        self.with_proc(p, ProcessView { mapping: Some(m), ..self.procs[p] })
    }

    /// What `mmap` answers: `BadArg` for a request from another process,
    /// for a region that starts at address 0 or ends before it starts;
    /// `Perm` for a writable one; `Busy` when the process has an arena.
    pub open spec fn mmap_result(self, p: int, caller_pid: i32, start: usize, end: usize, writable: bool) -> Result<
        (),
        BinderError,
    > {
        if caller_pid != self.procs[p].pid || start == 0 || end < start {
            Err(BinderError::BadArg)
        } else if writable {
            Err(BinderError::Perm)
        } else if self.procs[p].mapping.is_some() {
            Err(BinderError::Busy)
        } else {
            Ok(())
        }
    }

    /// The engine after `mmap`: on success the process has an arena at
    /// `start`, as large as the region but no larger than the limit.
    pub open spec fn mmap(self, p: int, caller_pid: i32, start: usize, end: usize, writable: bool) -> BinderView {
        if self.mmap_result(p, caller_pid, start, end, writable).is_ok() {
            self.with_mapping(p, MappingView::fresh(start, mapping_size(start, end)))
        } else {
            self
        }
    }

    /// What `buffer_alloc` answers: a buffer at the lowest address where
    /// `size` bytes fit; `Dead` when the process has no arena, `NoMem` when
    /// nothing fits.
    pub open spec fn buffer_alloc_result(self, p: int, size: usize) -> Result<Allocation, BinderError> {
        match self.procs[p].mapping {
            None => Err(BinderError::Dead),
            Some(m) => {
                let i = first_fit(m.slots, size, 0);
                if i >= m.slots.len() {
                    Err(BinderError::NoMem)
                } else {
                    Ok(
                        Allocation {
                            offset: m.slots[i].offset,
                            size,
                            ptr: (m.address + m.slots[i].offset) as usize,
                            info: None,
                        },
                    )
                }
            },
        }
    }

    /// The engine after `buffer_alloc`.
    pub open spec fn buffer_alloc(self, p: int, size: usize) -> BinderView {
        match self.procs[p].mapping {
            None => self,
            Some(m) => {
                let i = first_fit(m.slots, size, 0);
                if i >= m.slots.len() {
                    self
                } else {
                    self.with_mapping(p, MappingView { slots: split_at(m.slots, i, size), ..m })
                }
            },
        }
    }

    /// Row of the committed slot of process `p` that userspace sees at
    /// `ptr`, if there is one.
    pub open spec fn committed_at(self, p: int, ptr: usize) -> Option<int> {
        match self.procs[p].mapping {
            None => None,
            Some(m) => if ptr < m.address {
                None
            } else {
                let i = first_at(m.slots, (ptr - m.address) as usize, SlotState::Committed, 0);
                if i < m.slots.len() {
                    Some(i)
                } else {
                    None
                }
            },
        }
    }

    /// What `buffer_get` answers: the committed buffer at `ptr` with its metadata.
    pub open spec fn buffer_get_result(self, p: int, ptr: usize) -> Option<Allocation> {
        match self.committed_at(p, ptr) {
            None => None,
            Some(i) => {
                let m = self.procs[p].mapping.unwrap();
                Some(
                    Allocation {
                        offset: m.slots[i].offset,
                        size: m.slots[i].size,
                        ptr,
                        info: m.slots[i].info,
                    },
                )
            },
        }
    }

    /// The engine after `buffer_get`: the buffer is reserved again and its
    /// metadata has moved to the caller.
    pub open spec fn buffer_get(self, p: int, ptr: usize) -> BinderView {
        match self.committed_at(p, ptr) {
            None => self,
            Some(i) => {
                let m = self.procs[p].mapping.unwrap();
                self.with_mapping(
                    p,
                    MappingView {
                        slots: m.slots.update(
                            i,
                            Slot {
                                offset: m.slots[i].offset,
                                size: m.slots[i].size,
                                state: SlotState::Reserved,
                                info: None,
                            },
                        ),
                        ..m
                    },
                )
            },
        }
    }

    /// The engine after `buffer_raw_free`: the reserved buffer at `ptr`,
    /// if there is one, is free again.
    pub open spec fn buffer_raw_free(self, p: int, ptr: usize) -> BinderView {
        match self.procs[p].mapping {
            None => self,
            Some(m) => if ptr < m.address {
                self
            } else {
                let i = first_at(m.slots, (ptr - m.address) as usize, SlotState::Reserved, 0);
                if i < m.slots.len() {
                    self.with_mapping(p, MappingView { slots: release_at(m.slots, i), ..m })
                } else {
                    self
                }
            },
        }
    }

    /// Whether `buffer_make_freeable` finds a reserved buffer at `offset`.
    pub open spec fn can_commit(self, p: int, offset: usize) -> bool {
        self.procs[p].mapping.is_some() && first_at(
            self.procs[p].mapping.unwrap().slots,
            offset,
            SlotState::Reserved,
            0,
        ) < self.procs[p].mapping.unwrap().slots.len()
    }

    /// The engine after `buffer_make_freeable`: the reserved buffer at
    /// `offset` is committed and carries `data`. Without such a buffer, or
    /// without an arena, the reference in `data` is given up.
    pub open spec fn buffer_make_freeable(self, p: int, offset: usize, data: Option<AllocationInfo>) -> BinderView {
        if self.can_commit(p, offset) {
            let m = self.procs[p].mapping.unwrap();
            let i = first_at(m.slots, offset, SlotState::Reserved, 0);
            self.with_mapping(
                p,
                MappingView {
                    slots: m.slots.update(
                        i,
                        Slot { offset, size: m.slots[i].size, state: SlotState::Committed, info: data },
                    ),
                    ..m
                },
            )
        } else {
            match data {
                Some(info) => self.drop_node_ref_opt(info.target_node),
                None => self,
            }
        }
    }

    /// The engine after bytes were written into the arena of process `p`.
    pub open spec fn buffer_write(self, p: int, offset: usize, data: Seq<u8>) -> BinderView {
        match self.procs[p].mapping {
            Some(m) => if offset + data.len() <= m.size {
                self.with_mapping(p, MappingView { pages: overwrite(m.pages, offset as int, data), ..m })
            } else {
                self
            },
            None => self,
        }
    }

    /// The engine after a range of the arena of process `p` was zeroed.
    pub open spec fn buffer_clear(self, p: int, offset: usize, len: usize) -> BinderView {
        match self.procs[p].mapping {
            Some(m) => if offset + len <= m.size {
                self.with_mapping(p, MappingView { pages: zeroed(m.pages, offset as int, len as int), ..m })
            } else {
                self
            },
            None => self,
        }
    }

    /// What `buffer_read` answers: the bytes of a range of the arena.
    pub open spec fn buffer_read(self, p: int, offset: usize, len: usize) -> Option<Seq<u8>> {
        match self.procs[p].mapping {
            Some(m) => if offset + len <= m.size {
                Some(m.pages.subrange(offset as int, offset + len))
            } else {
                None
            },
            None => None,
        }
    }

    /// A reservation of zero bytes succeeds whenever the process has an
    /// arena, and gives a buffer of length zero; one of more bytes than the
    /// arena has fails with `NoMem`.
    pub proof fn lemma_buffer_alloc_bounds(self, p: int, size: usize)
        requires
            self.wf(),
            0 <= p < self.procs.len(),
            self.procs[p].mapping.is_some(),
        ensures
            self.buffer_alloc_result(p, 0).is_ok(),
            self.buffer_alloc_result(p, 0).unwrap().size == 0,
            size > self.procs[p].mapping.unwrap().size ==> self.buffer_alloc_result(p, size)
                == Err::<Allocation, BinderError>(BinderError::NoMem),
    {
        let m = self.procs[p].mapping.unwrap();
        assert(self.procs[p].valid(self.lens()));
        crate::range_alloc::lemma_zero_size_always_fits(m.slots);
        if size > m.size {
            crate::range_alloc::lemma_oversize_never_fits(m.slots, m.size as int, size);
        }
    }
}

impl Binder {
    /// Gives process `p` its buffer arena: the region `[start, end)` of its
    /// address space, cut to the largest size allowed. `caller_pid` is the
    /// process that asks, `writable` whether it asks for write access.
    pub fn mmap(&mut self, p: ProcId, caller_pid: i32, start: usize, end: usize, writable: bool) -> (r: Result<
        (),
        BinderError,
    >)
        requires
            old(self)@.wf(),
            p < old(self)@.procs.len(),
        ensures
            final(self)@ == old(self)@.mmap(p as int, caller_pid, start, end, writable),
            r == old(self)@.mmap_result(p as int, caller_pid, start, end, writable),
            final(self)@.wf(),
            final(self)@.extends(old(self)@),
            final(self)@.lens() == old(self)@.lens(),
    {
        if caller_pid != self.procs[p].pid || start == 0 || end < start {
            return Err(BinderError::BadArg);
        }
        if writable {
            return Err(BinderError::Perm);
        }
        if self.procs[p].inner.mapping.is_some() {
            return Err(BinderError::Busy);
        }
        let size: usize = if end - start < MAX_MAPPING_SIZE {
            end - start
        } else {
            MAX_MAPPING_SIZE
        };
        let mapping = Mapping::new(start, size);
        proof {
            let pr = self@.procs[p as int];
            assert(pr.valid(self@.lens()));
            assert(crate::process::slots_valid(mapping@.slots, self@.lens()));
            self@.lemma_with_proc(p as int, ProcessView { mapping: Some(mapping@), ..pr });
        }
        self.proc_mut(p).inner.mapping = Some(mapping);
        Ok(())
    }

    /// Reserves a buffer of `size` bytes in the arena of process `p`.
    pub fn buffer_alloc(&mut self, p: ProcId, size: usize) -> (r: Result<Allocation, BinderError>)
        requires
            old(self)@.wf(),
            p < old(self)@.procs.len(),
        ensures
            final(self)@ == old(self)@.buffer_alloc(p as int, size),
            r == old(self)@.buffer_alloc_result(p as int, size),
            r.is_ok() ==> r.unwrap().offset + size <= old(self)@.procs[p as int].mapping.unwrap().size
                && old(self)@.procs[p as int].mapping.unwrap().size <= MAX_MAPPING_SIZE,
            final(self)@.wf(),
            final(self)@.extends(old(self)@),
            final(self)@.lens() == old(self)@.lens(),
    {
        let ghost pr = self@.procs[p as int];
        assert(pr.valid(self@.lens()));
        proof {
            if pr.mapping.is_some() {
                let m = pr.mapping.unwrap();
                lemma_first_fit(m.slots, size, 0);
                let i = first_fit(m.slots, size, 0);
                if i < m.slots.len() {
                    lemma_split_keeps_wf(m.slots, m.size as int, i, size);
                    lemma_split_slots_valid(m.slots, i, size, self@.lens());
                    lemma_tiles_bounded(m.slots, m.size as int, i);
                    self@.lemma_with_proc(
                        p as int,
                        ProcessView {
                            mapping: Some(MappingView { slots: split_at(m.slots, i, size), ..m }),
                            ..pr
                        },
                    );
                }
            }
        }
        match &mut self.proc_mut(p).inner.mapping {
            None => Err(BinderError::Dead),
            Some(m) => {
                match m.alloc.reserve_new(size) {
                    Err(e) => Err(e),
                    Ok(offset) => Ok(Allocation { offset, size, ptr: m.address + offset, info: None }),
                }
            },
        }
    }

    /// Looks up the committed buffer that userspace of process `p` sees at
    /// `ptr`, and takes it back into the reserved state with its metadata.
    pub fn buffer_get(&mut self, p: ProcId, ptr: usize) -> (r: Option<Allocation>)
        requires
            old(self)@.wf(),
            p < old(self)@.procs.len(),
        ensures
            final(self)@ == old(self)@.buffer_get(p as int, ptr),
            r == old(self)@.buffer_get_result(p as int, ptr),
            r.is_some() && r.unwrap().info.is_some() ==> r.unwrap().info.unwrap().valid(
                old(self)@.lens(),
            ),
            final(self)@.wf(),
            final(self)@.extends(old(self)@),
            final(self)@.stays_down(old(self)@),
            final(self)@.same_oneway(old(self)@),
            final(self)@.lens() == old(self)@.lens(),
    {
        let ghost pr = self@.procs[p as int];
        assert(pr.valid(self@.lens()));
        proof {
            if pr.mapping.is_some() && ptr >= pr.mapping.unwrap().address {
                let m = pr.mapping.unwrap();
                let off = (ptr - m.address) as usize;
                lemma_first_at(m.slots, off, SlotState::Committed, 0);
                let i = first_at(m.slots, off, SlotState::Committed, 0);
                if i < m.slots.len() {
                    let slot = Slot::<AllocationInfo> {
                        offset: off,
                        size: m.slots[i].size,
                        state: SlotState::Reserved,
                        info: None,
                    };
                    lemma_restate_keeps_wf(m.slots, m.size as int, i, slot);
                    lemma_update_slots_valid(m.slots, i, slot, self@.lens());
                    self@.lemma_with_proc(
                        p as int,
                        ProcessView {
                            mapping: Some(MappingView { slots: m.slots.update(i, slot), ..m }),
                            ..pr
                        },
                    );
                }
            }
        }
        match &mut self.proc_mut(p).inner.mapping {
            None => None,
            Some(m) => {
                if ptr < m.address {
                    return None;
                }
                let offset: usize = ptr - m.address;
                match m.alloc.reserve_existing(offset) {
                    Err(_) => None,
                    Ok((size, info)) => Some(Allocation { offset, size, ptr, info }),
                }
            },
        }
    }

    /// Frees the reserved buffer that userspace of process `p` sees at `ptr`.
    pub fn buffer_raw_free(&mut self, p: ProcId, ptr: usize)
        requires
            old(self)@.wf(),
            p < old(self)@.procs.len(),
        ensures
            final(self)@ == old(self)@.buffer_raw_free(p as int, ptr),
            final(self)@.wf(),
            final(self)@.extends(old(self)@),
            final(self)@.stays_down(old(self)@),
            final(self)@.same_oneway(old(self)@),
            final(self)@.lens() == old(self)@.lens(),
    {
        let ghost pr = self@.procs[p as int];
        assert(pr.valid(self@.lens()));
        proof {
            if pr.mapping.is_some() && ptr >= pr.mapping.unwrap().address {
                let m = pr.mapping.unwrap();
                let off = (ptr - m.address) as usize;
                lemma_first_at(m.slots, off, SlotState::Reserved, 0);
                let i = first_at(m.slots, off, SlotState::Reserved, 0);
                if i < m.slots.len() {
                    lemma_release_keeps_wf(m.slots, m.size as int, i);
                    lemma_release_slots_valid(m.slots, i, self@.lens());
                    self@.lemma_with_proc(
                        p as int,
                        ProcessView {
                            mapping: Some(MappingView { slots: release_at(m.slots, i), ..m }),
                            ..pr
                        },
                    );
                }
            }
        }
        match &mut self.proc_mut(p).inner.mapping {
            None => {},
            Some(m) => {
                if ptr >= m.address {
                    let _ = m.alloc.reservation_abort(ptr - m.address);
                }
            },
        }
    }

    /// Commits the reserved buffer at `offset` in the arena of process `p`,
    /// so that it can be looked up and freed; it carries `data` from now on.
    pub fn buffer_make_freeable(&mut self, p: ProcId, offset: usize, data: Option<AllocationInfo>)
        requires
            old(self)@.wf(),
            p < old(self)@.procs.len(),
            data.is_some() ==> data.unwrap().valid(old(self)@.lens()),
        ensures
            final(self)@ == old(self)@.buffer_make_freeable(p as int, offset, data),
            final(self)@.wf(),
            final(self)@.extends(old(self)@),
            final(self)@.lens() == old(self)@.lens(),
    {
        let ghost pr = self@.procs[p as int];
        assert(pr.valid(self@.lens()));
        proof {
            if pr.mapping.is_some() {
                let m = pr.mapping.unwrap();
                lemma_first_at(m.slots, offset, SlotState::Reserved, 0);
                let i = first_at(m.slots, offset, SlotState::Reserved, 0);
                if i < m.slots.len() {
                    let slot = Slot::<AllocationInfo> {
                        offset,
                        size: m.slots[i].size,
                        state: SlotState::Committed,
                        info: data,
                    };
                    lemma_restate_keeps_wf(m.slots, m.size as int, i, slot);
                    lemma_update_slots_valid(m.slots, i, slot, self@.lens());
                    self@.lemma_with_proc(
                        p as int,
                        ProcessView {
                            mapping: Some(MappingView { slots: m.slots.update(i, slot), ..m }),
                            ..pr
                        },
                    );
                }
            }
        }
        let rest: Option<AllocationInfo> = match &mut self.proc_mut(p).inner.mapping {
            None => data,
            Some(m) => {
                match m.alloc.reservation_commit(offset, data) {
                    Ok(()) => {
                        return ;
                    },
                    Err(back) => back,
                }
            },
        };
        match rest {
            Some(info) => self.drop_node_ref_opt(info.target_node),
            None => {},
        }
    }

    /// Writes bytes into the arena of process `p`. Returns whether the
    /// bytes lie inside the arena; if not, nothing is written.
    pub fn buffer_write(&mut self, p: ProcId, offset: usize, data: &[u8]) -> (ok: bool)
        requires
            old(self)@.wf(),
            p < old(self)@.procs.len(),
        ensures
            final(self)@ == old(self)@.buffer_write(p as int, offset, data@),
            ok == (old(self)@.procs[p as int].mapping.is_some() && offset + data@.len() <= old(self)@.procs[p as int].mapping.unwrap().size),
            final(self)@.wf(),
            final(self)@.extends(old(self)@),
            final(self)@.lens() == old(self)@.lens(),
    {
        let ghost pr = self@.procs[p as int];
        assert(pr.valid(self@.lens()));
        proof {
            if pr.mapping.is_some() {
                let m = pr.mapping.unwrap();
                if offset + data@.len() <= m.size {
                    self@.lemma_with_proc(
                        p as int,
                        ProcessView {
                            mapping: Some(
                                MappingView { pages: overwrite(m.pages, offset as int, data@), ..m },
                            ),
                            ..pr
                        },
                    );
                }
            }
        }
        match &mut self.proc_mut(p).inner.mapping {
            None => false,
            Some(m) => m.write(offset, data),
        }
    }

    /// Zeroes a range of the arena of process `p`, if the range lies inside it.
    pub fn buffer_clear(&mut self, p: ProcId, offset: usize, len: usize)
        requires
            old(self)@.wf(),
            p < old(self)@.procs.len(),
        ensures
            final(self)@ == old(self)@.buffer_clear(p as int, offset, len),
            final(self)@.wf(),
            final(self)@.extends(old(self)@),
            final(self)@.stays_down(old(self)@),
            final(self)@.same_oneway(old(self)@),
            final(self)@.lens() == old(self)@.lens(),
    {
        let ghost pr = self@.procs[p as int];
        assert(pr.valid(self@.lens()));
        proof {
            if pr.mapping.is_some() {
                let m = pr.mapping.unwrap();
                if offset + len <= m.size {
                    self@.lemma_with_proc(
                        p as int,
                        ProcessView {
                            mapping: Some(
                                MappingView { pages: zeroed(m.pages, offset as int, len as int), ..m },
                            ),
                            ..pr
                        },
                    );
                }
            }
        }
        match &mut self.proc_mut(p).inner.mapping {
            None => {},
            Some(m) => {
                m.clear(offset, len);
            },
        }
    }

    /// Copies a range of the arena of process `p`; `None` when the process
    /// has no arena or the range does not lie inside it.
    pub fn buffer_read(&self, p: ProcId, offset: usize, len: usize) -> (r: Option<Vec<u8>>)
        requires
            self@.wf(),
            p < self@.procs.len(),
        ensures
            r.is_some() == self@.buffer_read(p as int, offset, len).is_some(),
            r.is_some() ==> r.unwrap()@ == self@.buffer_read(p as int, offset, len).unwrap(),
    {
        assert(self@.procs[p as int].valid(self@.lens()));
        match &self.procs[p].inner.mapping {
            None => None,
            Some(m) => m.read(offset, len),
        }
    }
}

} // verus!

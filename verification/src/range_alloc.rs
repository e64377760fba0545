//! The range allocator behind a process's buffer arena.
//!
//! The arena is tiled by slots in address order. A slot is free, reserved
//! (handed out, not yet visible to lookups by the recipient) or committed
//! (it carries the metadata of a delivered payload until it is freed).

use vstd::prelude::*;
use crate::defs::BinderError;

verus! {

#[derive(Clone, Copy, Debug, PartialEq, Eq, Structural)]
pub enum SlotState {
    Free,
    Reserved,
    Committed,
}

/// One range of the arena.
pub struct Slot<T> {
    pub offset: usize,
    pub size: usize,
    pub state: SlotState,
    /// Metadata of a committed slot.
    pub info: Option<T>,
}

/// A committed slot as handed out when the arena is torn down.
pub struct CommittedSlot<T> {
    pub offset: usize,
    pub size: usize,
    pub info: Option<T>,
}

pub struct RangeAllocator<T> {
    /// Size of the arena in bytes.
    pub size: usize,
    /// The slots, in address order.
    pub slots: Vec<Slot<T>>,
}

/// Slot `i` ends where the next one starts, the last one at the end of the arena.
pub open spec fn joins<T>(slots: Seq<Slot<T>>, size: int, i: int) -> bool {
    slots[i].offset + slots[i].size == (if i + 1 < slots.len() {
        slots[i + 1].offset as int
    } else {
        size
    })
}

/// The slots tile `[0, size)` in order, without gap or overlap.
pub open spec fn tiles<T>(slots: Seq<Slot<T>>, size: int) -> bool {
    &&& slots.len() >= 1
    &&& slots[0].offset == 0
    &&& forall|i: int| 0 <= i < slots.len() ==> #[trigger] joins(slots, size, i)
}

/// Only committed slots carry metadata.
pub open spec fn info_only_committed<T>(slots: Seq<Slot<T>>) -> bool {
    forall|i: int|
        0 <= i < slots.len() && (#[trigger] slots[i]).state != SlotState::Committed
            ==> slots[i].info.is_none()
}

/// Slot `i` and its right neighbour are both free.
pub open spec fn both_free<T>(slots: Seq<Slot<T>>, i: int) -> bool {
    slots[i].state == SlotState::Free && slots[i + 1].state == SlotState::Free
}

/// No two neighbours are both free: free space is always merged.
pub open spec fn coalesced<T>(slots: Seq<Slot<T>>) -> bool {
    forall|i: int| 0 <= i && i + 1 < slots.len() ==> !#[trigger] both_free(slots, i)
}

/// Some slot is free.
pub open spec fn has_free<T>(slots: Seq<Slot<T>>) -> bool {
    exists|i: int| 0 <= i < slots.len() && (#[trigger] slots[i]).state == SlotState::Free
}

/// Index of the first slot from `from` on that is free and holds `size`
/// bytes; the number of slots if there is none.
pub open spec fn first_fit<T>(slots: Seq<Slot<T>>, size: usize, from: int) -> int
    decreases slots.len() - from,
{
    if from < 0 || from >= slots.len() {
        slots.len() as int
    } else if slots[from].state == SlotState::Free && slots[from].size >= size {
        from
    } else {
        first_fit(slots, size, from + 1)
    }
}

/// Index of the first slot from `from` on that starts at `offset` and is in
/// `state`; the number of slots if there is none.
pub open spec fn first_at<T>(slots: Seq<Slot<T>>, offset: usize, state: SlotState, from: int) -> int
    decreases slots.len() - from,
{
    if from < 0 || from >= slots.len() {
        slots.len() as int
    } else if slots[from].offset == offset && slots[from].state == state {
        from
    } else {
        first_at(slots, offset, state, from + 1)
    }
}

/// The slots after slot `i`, free and large enough, gave its first `size`
/// bytes to a new reservation.
pub open spec fn split_at<T>(slots: Seq<Slot<T>>, i: int, size: usize) -> Seq<Slot<T>> {
    slots.update(
        i,
        Slot { offset: slots[i].offset, size, state: SlotState::Reserved, info: None },
    ).insert(
        i + 1,
        Slot {
            offset: (slots[i].offset + size) as usize,
            size: (slots[i].size - size) as usize,
            state: SlotState::Free,
            info: None,
        },
    )
}

/// The slots after slot `k` swallowed its right neighbour.
pub open spec fn merge_next<T>(slots: Seq<Slot<T>>, k: int) -> Seq<Slot<T>> {
    slots.update(
        k,
        Slot {
            offset: slots[k].offset,
            size: (slots[k].size + slots[k + 1].size) as usize,
            state: slots[k].state,
            info: slots[k].info,
        },
    ).remove(k + 1)
}

/// The slots after slot `i` became free and was merged with its free neighbours.
pub open spec fn release_at<T>(slots: Seq<Slot<T>>, i: int) -> Seq<Slot<T>> {
    let s1 = slots.update(
        i,
        Slot { offset: slots[i].offset, size: slots[i].size, state: SlotState::Free, info: None },
    );
    let s2 = if i + 1 < s1.len() && s1[i + 1].state == SlotState::Free {
        merge_next(s1, i)
    } else {
        s1
    };
    if i > 0 && s2[i - 1].state == SlotState::Free {
        merge_next(s2, i - 1)
    } else {
        s2
    }
}

/// The committed slots among the first `n`, in address order.
pub open spec fn committed_prefix<T>(slots: Seq<Slot<T>>, n: int) -> Seq<CommittedSlot<T>>
    decreases n,
{
    if n <= 0 {
        Seq::empty()
    } else if slots[n - 1].state == SlotState::Committed {
        committed_prefix(slots, n - 1).push(
            CommittedSlot {
                offset: slots[n - 1].offset,
                size: slots[n - 1].size,
                info: slots[n - 1].info,
            },
        )
    } else {
        committed_prefix(slots, n - 1)
    }
}

/// A search result is either the number of slots or the index of a match
/// that no match precedes.
pub proof fn lemma_first_fit<T>(slots: Seq<Slot<T>>, size: usize, from: int)
    requires
        0 <= from <= slots.len(),
    ensures
        from <= first_fit(slots, size, from) <= slots.len(),
        first_fit(slots, size, from) < slots.len() ==> slots[first_fit(slots, size, from)].state
            == SlotState::Free && slots[first_fit(slots, size, from)].size >= size,
        forall|j: int|
            from <= j < first_fit(slots, size, from) ==> !((#[trigger] slots[j]).state
                == SlotState::Free && slots[j].size >= size),
    decreases slots.len() - from,
{
    if from < slots.len() && !(slots[from].state == SlotState::Free && slots[from].size >= size) {
        lemma_first_fit(slots, size, from + 1);
    }
}

/// A search result is either the number of slots or the index of a match
/// that no match precedes.
pub proof fn lemma_first_at<T>(slots: Seq<Slot<T>>, offset: usize, state: SlotState, from: int)
    requires
        0 <= from <= slots.len(),
    ensures
        from <= first_at(slots, offset, state, from) <= slots.len(),
        first_at(slots, offset, state, from) < slots.len() ==> slots[first_at(
            slots,
            offset,
            state,
            from,
        )].offset == offset && slots[first_at(slots, offset, state, from)].state == state,
        forall|j: int|
            from <= j < first_at(slots, offset, state, from) ==> !((#[trigger] slots[j]).offset
                == offset && slots[j].state == state),
    decreases slots.len() - from,
{
    if from < slots.len() && !(slots[from].offset == offset && slots[from].state == state) {
        lemma_first_at(slots, offset, state, from + 1);
    }
}

/// In a tiling every slot ends where a later one starts or before, and
/// inside the arena.
pub proof fn lemma_tiles_ordered<T>(slots: Seq<Slot<T>>, size: int, i: int, j: int)
    requires
        tiles(slots, size),
        0 <= i < j < slots.len(),
    ensures
        slots[i].offset + slots[i].size <= slots[j].offset,
    decreases j - i,
{
    assert(joins(slots, size, i));
    if i + 1 < j {
        lemma_tiles_ordered(slots, size, i + 1, j);
    }
}

/// In a tiling every slot lies inside the arena.
pub proof fn lemma_tiles_bounded<T>(slots: Seq<Slot<T>>, size: int, i: int)
    requires
        tiles(slots, size),
        0 <= i < slots.len(),
    ensures
        slots[i].offset + slots[i].size <= size,
{
    assert(joins(slots, size, slots.len() - 1));
    if i + 1 < slots.len() {
        lemma_tiles_ordered(slots, size, i, slots.len() - 1);
    }
}

/// Cutting a reservation from a free slot keeps the tiling well-formed.
pub proof fn lemma_split_keeps_wf<T>(slots: Seq<Slot<T>>, size: int, i: int, want: usize)
    requires
        tiles(slots, size),
        info_only_committed(slots),
        coalesced(slots),
        0 <= i < slots.len(),
        slots[i].state == SlotState::Free,
        slots[i].size >= want,
        size <= usize::MAX,
    ensures
        tiles(split_at(slots, i, want), size),
        info_only_committed(split_at(slots, i, want)),
        coalesced(split_at(slots, i, want)),
        has_free(split_at(slots, i, want)),
{
    let new_slots = split_at(slots, i, want);
    lemma_tiles_bounded(slots, size, i);
    assert(new_slots[i + 1].state == SlotState::Free);
    assert forall|k: int| 0 <= k < new_slots.len() implies #[trigger] joins(new_slots, size, k) by {
        if k < i {
            assert(joins(slots, size, k));
        } else if k > i + 1 {
            assert(joins(slots, size, k - 1));
        } else {
            assert(joins(slots, size, i));
        }
    }
    assert forall|k: int| 0 <= k && k + 1 < new_slots.len() implies !#[trigger] both_free(
        new_slots,
        k,
    ) by {
        if k < i {
            assert(!both_free(slots, k));
        } else if k > i + 1 {
            assert(!both_free(slots, k - 1));
        } else if k == i + 1 {
            assert(!both_free(slots, i));
        }
    }
}

/// Merging a slot with its right neighbour keeps the tiling.
pub proof fn lemma_merge_tiles<T>(slots: Seq<Slot<T>>, size: int, k: int)
    requires
        tiles(slots, size),
        0 <= k,
        k + 1 < slots.len(),
        size <= usize::MAX,
    ensures
        tiles(merge_next(slots, k), size),
{
    let m = merge_next(slots, k);
    lemma_tiles_bounded(slots, size, k + 1);
    assert(joins(slots, size, k));
    assert(joins(slots, size, k + 1));
    assert forall|j: int| 0 <= j < m.len() implies #[trigger] joins(m, size, j) by {
        if j < k {
            assert(joins(slots, size, j));
        } else if j > k {
            assert(joins(slots, size, j + 1));
        }
    }
}

/// Freeing a slot and merging it with its free neighbours keeps the tiling well-formed.
pub proof fn lemma_release_keeps_wf<T>(slots: Seq<Slot<T>>, size: int, i: int)
    requires
        tiles(slots, size),
        info_only_committed(slots),
        coalesced(slots),
        0 <= i < slots.len(),
        slots[i].state != SlotState::Free,
        size <= usize::MAX,
    ensures
        tiles(release_at(slots, i), size),
        info_only_committed(release_at(slots, i)),
        coalesced(release_at(slots, i)),
        has_free(release_at(slots, i)),
{
    let s1 = slots.update(
        i,
        Slot { offset: slots[i].offset, size: slots[i].size, state: SlotState::Free, info: None },
    );
    assert forall|j: int| 0 <= j < s1.len() implies #[trigger] joins(s1, size, j) by {
        assert(joins(slots, size, j));
    }
    let merged_next = i + 1 < s1.len() && s1[i + 1].state == SlotState::Free;
    let s2 = if merged_next {
        merge_next(s1, i)
    } else {
        s1
    };
    if merged_next {
        lemma_merge_tiles(s1, size, i);
    }
    let merged_prev = i > 0 && s2[i - 1].state == SlotState::Free;
    let s3 = if merged_prev {
        merge_next(s2, i - 1)
    } else {
        s2
    };
    if merged_prev {
        lemma_merge_tiles(s2, size, i - 1);
    }
    assert(s3 == release_at(slots, i));
    let at = if merged_prev {
        i - 1
    } else {
        i
    };
    assert(s3[at].state == SlotState::Free);
    assert forall|j: int| 0 <= j && j + 1 < s3.len() implies !#[trigger] both_free(s3, j) by {
        if j - 1 >= 0 && j < slots.len() {
            assert(!both_free(slots, j - 1));
        }
        if j + 1 < slots.len() {
            assert(!both_free(slots, j));
        }
        if j + 2 < slots.len() {
            assert(!both_free(slots, j + 1));
        }
        if j + 3 < slots.len() {
            assert(!both_free(slots, j + 2));
        }
    }
}

/// Changing the state and metadata of a slot that is and stays not free
/// keeps the tiling well-formed.
pub proof fn lemma_restate_keeps_wf<T>(slots: Seq<Slot<T>>, size: int, i: int, slot: Slot<T>)
    requires
        tiles(slots, size),
        info_only_committed(slots),
        coalesced(slots),
        has_free(slots),
        0 <= i < slots.len(),
        slots[i].state != SlotState::Free,
        slot.state != SlotState::Free,
        slot.offset == slots[i].offset,
        slot.size == slots[i].size,
        slot.state != SlotState::Committed ==> slot.info.is_none(),
    ensures
        tiles(slots.update(i, slot), size),
        info_only_committed(slots.update(i, slot)),
        coalesced(slots.update(i, slot)),
        has_free(slots.update(i, slot)),
{
    let s1 = slots.update(i, slot);
    assert forall|j: int| 0 <= j < s1.len() implies #[trigger] joins(s1, size, j) by {
        assert(joins(slots, size, j));
    }
    assert forall|j: int| 0 <= j && j + 1 < s1.len() implies !#[trigger] both_free(s1, j) by {
        assert(!both_free(slots, j));
    }
    let w = choose|w: int| 0 <= w < slots.len() && (#[trigger] slots[w]).state == SlotState::Free;
    assert(s1[w].state == SlotState::Free);
}

/// A reservation of zero bytes always finds a slot, and the slot it is cut
/// from keeps its whole size.
pub proof fn lemma_zero_size_always_fits<T>(slots: Seq<Slot<T>>)
    requires
        has_free(slots),
    ensures
        first_fit(slots, 0, 0) < slots.len(),
        split_at(slots, first_fit(slots, 0, 0), 0)[first_fit(slots, 0, 0)].size == 0,
        split_at(slots, first_fit(slots, 0, 0), 0)[first_fit(slots, 0, 0)].state
            == SlotState::Reserved,
{
    lemma_first_fit(slots, 0, 0);
    let w = choose|w: int| 0 <= w < slots.len() && (#[trigger] slots[w]).state == SlotState::Free;
    if first_fit(slots, 0, 0) >= slots.len() {
        assert(!(slots[w].state == SlotState::Free && slots[w].size >= 0));
    }
}

/// A reservation larger than the arena never finds a slot.
pub proof fn lemma_oversize_never_fits<T>(slots: Seq<Slot<T>>, size: int, want: usize)
    requires
        tiles(slots, size),
        want > size,
    ensures
        first_fit(slots, want, 0) >= slots.len(),
{
    lemma_first_fit(slots, want, 0);
    let i = first_fit(slots, want, 0);
    if i < slots.len() {
        lemma_tiles_bounded(slots, size, i);
    }
}

impl<T> RangeAllocator<T> {
    /// The slots tile the arena, free space is merged, a free slot (possibly
    /// empty) always exists, and only committed slots carry metadata.
    pub open spec fn wf(&self) -> bool {
        &&& tiles(self.slots@, self.size as int)
        &&& info_only_committed(self.slots@)
        &&& coalesced(self.slots@)
        &&& has_free(self.slots@)
    }

    /// Index of the slot that a reservation of `size` bytes is cut from.
    pub open spec fn fit_index(&self, size: usize) -> int {
        first_fit(self.slots@, size, 0)
    }

    /// Index of the reserved or committed slot that `offset` names.
    pub open spec fn index_of(&self, offset: usize, state: SlotState) -> int {
        first_at(self.slots@, offset, state, 0)
    }

    /// An arena of `size` bytes, all free.
    pub fn new(size: usize) -> (r: Self)
        ensures
            r.wf(),
            r.size == size,
            r.slots@ == seq![Slot::<T> { offset: 0, size, state: SlotState::Free, info: None }],
    {
        let mut slots: Vec<Slot<T>> = Vec::new();
        slots.push(Slot { offset: 0, size, state: SlotState::Free, info: None });
        let r = RangeAllocator { size, slots };
        assert(r.slots@[0].state == SlotState::Free);
        r
    }

    /// Reserves `size` bytes at the lowest address where they fit and
    /// returns the offset. Fails with `NoMem` when no free slot is large enough.
    pub fn reserve_new(&mut self, size: usize) -> (r: Result<usize, BinderError>)
        requires
            old(self).wf(),
        ensures
            final(self).wf(),
            final(self).size == old(self).size,
            old(self).fit_index(size) >= old(self).slots@.len() ==> r == Err::<usize, BinderError>(
                BinderError::NoMem,
            ) && final(self).slots@ == old(self).slots@,
            old(self).fit_index(size) < old(self).slots@.len() ==> r == Ok::<usize, BinderError>(
                old(self).slots@[old(self).fit_index(size)].offset,
            ) && final(self).slots@ == split_at(old(self).slots@, old(self).fit_index(size), size),
    {
        let mut i: usize = 0;
        proof {
            lemma_first_fit(self.slots@, size, 0);
        }
        while i < self.slots.len() && !(matches!(self.slots[i].state, SlotState::Free)
            && self.slots[i].size >= size)
            invariant
                0 <= i <= self.slots@.len(),
                first_fit(self.slots@, size, 0) == first_fit(self.slots@, size, i as int),
            decreases self.slots@.len() - i,
        {
            i = i + 1;
        }
        if i == self.slots.len() {
            return Err(BinderError::NoMem);
        }
        proof {
            lemma_tiles_bounded(self.slots@, self.size as int, i as int);
        }
        let offset: usize = self.slots[i].offset;
        let rest: usize = self.slots[i].size - size;
        self.slots[i].size = size;
        self.slots[i].state = SlotState::Reserved;
        self.slots.insert(
            i + 1,
            Slot { offset: offset + size, size: rest, state: SlotState::Free, info: None },
        );
        proof {
            lemma_split_keeps_wf(old(self).slots@, self.size as int, i as int, size);
            assert(self.slots@ =~= split_at(old(self).slots@, i as int, size));
        }
        Ok(offset)
    }

    /// Finds the first slot that starts at `offset` and is in `state`.
    fn find(&self, offset: usize, state: SlotState) -> (i: usize)
        ensures
            i == self.index_of(offset, state),
            i <= self.slots@.len(),
            i < self.slots@.len() ==> self.slots@[i as int].offset == offset
                && self.slots@[i as int].state == state,
    {
        let mut i: usize = 0;
        proof {
            lemma_first_at(self.slots@, offset, state, 0);
        }
        while i < self.slots.len() && !(self.slots[i].offset == offset && self.slots[i].state
            == state)
            invariant
                0 <= i <= self.slots@.len(),
                first_at(self.slots@, offset, state, 0) == first_at(
                    self.slots@,
                    offset,
                    state,
                    i as int,
                ),
            decreases self.slots@.len() - i,
        {
            i = i + 1;
        }
        i
    }

    /// Gives a reservation back: the first reserved slot at `offset` becomes
    /// free and is merged with its free neighbours. Fails with `BadArg` when
    /// no reserved slot starts at `offset`.
    pub fn reservation_abort(&mut self, offset: usize) -> (r: Result<(), BinderError>)
        requires
            old(self).wf(),
        ensures
            final(self).wf(),
            final(self).size == old(self).size,
            old(self).index_of(offset, SlotState::Reserved) >= old(self).slots@.len() ==> r
                == Err::<(), BinderError>(BinderError::BadArg) && final(self).slots@ == old(self).slots@,
            old(self).index_of(offset, SlotState::Reserved) < old(self).slots@.len() ==> r.is_ok()
                && final(self).slots@ == release_at(
                old(self).slots@,
                old(self).index_of(offset, SlotState::Reserved),
            ),
    {
        let i: usize = self.find(offset, SlotState::Reserved);
        if i == self.slots.len() {
            return Err(BinderError::BadArg);
        }
        proof {
            lemma_release_keeps_wf(self.slots@, self.size as int, i as int);
            lemma_tiles_bounded(self.slots@, self.size as int, i as int);
            assert(self.slots@[i as int].info.is_none());
        }
        self.slots[i].state = SlotState::Free;
        if i + 1 < self.slots.len() && matches!(self.slots[i + 1].state, SlotState::Free) {
            proof {
                assert(joins(old(self).slots@, self.size as int, i as int));
                lemma_tiles_bounded(old(self).slots@, self.size as int, i + 1);
            }
            let next: Slot<T> = self.slots.remove(i + 1);
            self.slots[i].size = self.slots[i].size + next.size;
        }
        if i > 0 && matches!(self.slots[i - 1].state, SlotState::Free) {
            proof {
                assert(joins(old(self).slots@, self.size as int, i - 1));
                assert(joins(old(self).slots@, self.size as int, i as int));
                lemma_tiles_bounded(old(self).slots@, self.size as int, i as int);
                if i + 1 < old(self).slots@.len() {
                    lemma_tiles_bounded(old(self).slots@, self.size as int, i + 1);
                }
            }
            let cur: Slot<T> = self.slots.remove(i);
            self.slots[i - 1].size = self.slots[i - 1].size + cur.size;
        }
        proof {
            assert(self.slots@ =~= release_at(old(self).slots@, i as int));
        }
        Ok(())
    }

    /// Makes a reservation visible: the first reserved slot at `offset`
    /// becomes committed and carries `data`. Fails with `BadArg` when no
    /// reserved slot starts at `offset`; `data` is then handed back.
    pub fn reservation_commit(&mut self, offset: usize, data: Option<T>) -> (r: Result<
        (),
        Option<T>,
    >)
        requires
            old(self).wf(),
        ensures
            final(self).wf(),
            final(self).size == old(self).size,
            old(self).index_of(offset, SlotState::Reserved) >= old(self).slots@.len() ==> r
                == Err::<(), Option<T>>(data) && final(self).slots@ == old(self).slots@,
            old(self).index_of(offset, SlotState::Reserved) < old(self).slots@.len() ==> r.is_ok()
                && final(self).slots@ == old(self).slots@.update(
                old(self).index_of(offset, SlotState::Reserved),
                Slot {
                    offset,
                    size: old(self).slots@[old(self).index_of(offset, SlotState::Reserved)].size,
                    state: SlotState::Committed,
                    info: data,
                },
            ),
    {
        let i: usize = self.find(offset, SlotState::Reserved);
        if i == self.slots.len() {
            return Err(data);
        }
        proof {
            lemma_restate_keeps_wf(
                self.slots@,
                self.size as int,
                i as int,
                Slot {
                    offset,
                    size: self.slots@[i as int].size,
                    state: SlotState::Committed,
                    info: data,
                },
            );
        }
        self.slots[i].state = SlotState::Committed;
        self.slots[i].info = data;
        proof {
            assert(self.slots@ =~= old(self).slots@.update(
                i as int,
                Slot {
                    offset,
                    size: old(self).slots@[i as int].size,
                    state: SlotState::Committed,
                    info: data,
                },
            ));
        }
        Ok(())
    }

    /// Takes a committed slot back into the reserved state and returns its
    /// size and metadata. Fails with `BadArg` when no committed slot starts
    /// at `offset`.
    pub fn reserve_existing(&mut self, offset: usize) -> (r: Result<
        (usize, Option<T>),
        BinderError,
    >)
        requires
            old(self).wf(),
        ensures
            final(self).wf(),
            final(self).size == old(self).size,
            old(self).index_of(offset, SlotState::Committed) >= old(self).slots@.len() ==> r
                == Err::<(usize, Option<T>), BinderError>(BinderError::BadArg) && final(self).slots@ == old(self).slots@,
            old(self).index_of(offset, SlotState::Committed) < old(self).slots@.len() ==> r == Ok::<
                (usize, Option<T>),
                BinderError,
            >(
                (
                    old(self).slots@[old(self).index_of(offset, SlotState::Committed)].size,
                    old(self).slots@[old(self).index_of(offset, SlotState::Committed)].info,
                ),
            ) && final(self).slots@ == old(self).slots@.update(
                old(self).index_of(offset, SlotState::Committed),
                Slot {
                    offset,
                    size: old(self).slots@[old(self).index_of(offset, SlotState::Committed)].size,
                    state: SlotState::Reserved,
                    info: None,
                },
            ),
    {
        let i: usize = self.find(offset, SlotState::Committed);
        if i == self.slots.len() {
            return Err(BinderError::BadArg);
        }
        proof {
            lemma_restate_keeps_wf(
                self.slots@,
                self.size as int,
                i as int,
                Slot {
                    offset,
                    size: self.slots@[i as int].size,
                    state: SlotState::Reserved,
                    info: None,
                },
            );
        }
        self.slots[i].state = SlotState::Reserved;
        let info: Option<T> = self.slots[i].info.take();
        let size: usize = self.slots[i].size;
        proof {
            assert(self.slots@ =~= old(self).slots@.update(
                i as int,
                Slot {
                    offset,
                    size: old(self).slots@[i as int].size,
                    state: SlotState::Reserved,
                    info: None,
                },
            ));
        }
        Ok((size, info))
    }

    /// Tears the arena down and hands out its committed slots with their
    /// metadata, in address order.
    pub fn into_committed(self) -> (r: Vec<CommittedSlot<T>>)
        ensures
            r@ == committed_prefix(self.slots@, self.slots@.len() as int),
    {
        let mut this = self;
        let mut out: Vec<CommittedSlot<T>> = Vec::new();
        let ghost all = this.slots@;
        let mut i: usize = 0;
        while i < this.slots.len()
            invariant
                i <= all.len(),
                this.slots@.len() == all.len(),
                forall|j: int| i <= j < all.len() ==> this.slots@[j] == all[j],
                out@ == committed_prefix(all, i as int),
            decreases all.len() - i,
        {
            if matches!(this.slots[i].state, SlotState::Committed) {
                let offset: usize = this.slots[i].offset;
                let size: usize = this.slots[i].size;
                let info: Option<T> = this.slots[i].info.take();
                out.push(CommittedSlot { offset, size, info });
            }
            i = i + 1;
        }
        out
    }
}

} // verus!

//! The handle table of a process: the references it holds on nodes of other
//! processes, found by handle and by the node's global id. A node's global id
//! is its place in the engine's node arena, so the table keys it by `NodeId`.

use vstd::prelude::*;
use crate::defs::{BinderError, DeathId, Lens, NodeId};
use crate::node::{NodeRef, RefUpdate};

verus! {

/// What a process keeps per handle.
#[derive(Debug)]
pub struct NodeRefInfo {
    pub node_ref: NodeRef,
    /// The death subscription made through this handle, if any.
    pub death: Option<DeathId>,
}

impl NodeRefInfo {
    pub fn new(node_ref: NodeRef) -> (r: Self)
        ensures
            r == (NodeRefInfo { node_ref, death: None }),
    {
        NodeRefInfo { node_ref, death: None }
    }
}

/// One row of the handle table.
#[derive(Debug)]
pub struct HandleEntry {
    pub handle: u32,
    pub info: NodeRefInfo,
}

/// The handle table, kept in increasing order of handle.
pub struct ProcessNodeRefs {
    pub entries: Vec<HandleEntry>,
}

/// Handles increase strictly along the table.
pub open spec fn handles_sorted(entries: Seq<HandleEntry>) -> bool {
    forall|i: int, j: int|
        0 <= i < j < entries.len() ==> (#[trigger] entries[i]).handle < (
        #[trigger] entries[j]).handle
}

/// No node has two rows.
pub open spec fn ids_unique(entries: Seq<HandleEntry>) -> bool {
    forall|i: int, j: int|
        0 <= i < entries.len() && 0 <= j < entries.len() && i != j ==> (
        #[trigger] entries[i]).info.node_ref.node != (#[trigger] entries[j]).info.node_ref.node
}

/// Every row names a node, and a death subscription if it has one, that exists.
pub open spec fn rows_valid(entries: Seq<HandleEntry>, l: Lens) -> bool {
    forall|i: int|
        0 <= i < entries.len() ==> (#[trigger] entries[i]).info.node_ref.node < l.nodes && (
        entries[i].info.death.is_some() ==> entries[i].info.death.unwrap() < l.deaths)
}

/// Index of the first row from `from` on with this handle; the number of
/// rows if there is none.
pub open spec fn handle_pos(entries: Seq<HandleEntry>, handle: u32, from: int) -> int
    decreases entries.len() - from,
{
    if from < 0 || from >= entries.len() {
        entries.len() as int
    } else if entries[from].handle == handle {
        from
    } else {
        handle_pos(entries, handle, from + 1)
    }
}

/// Index of the first row from `from` on that names this node; the number
/// of rows if there is none.
pub open spec fn id_pos(entries: Seq<HandleEntry>, node: NodeId, from: int) -> int
    decreases entries.len() - from,
{
    if from < 0 || from >= entries.len() {
        entries.len() as int
    } else if entries[from].info.node_ref.node == node {
        from
    } else {
        id_pos(entries, node, from + 1)
    }
}

/// Some row has this handle.
pub open spec fn has_handle(entries: Seq<HandleEntry>, handle: u32) -> bool {
    handle_pos(entries, handle, 0) < entries.len()
}

/// Some row names this node.
pub open spec fn has_id(entries: Seq<HandleEntry>, node: NodeId) -> bool {
    id_pos(entries, node, 0) < entries.len()
}

/// A search by handle gives the number of rows or the first matching row.
pub proof fn lemma_handle_pos(entries: Seq<HandleEntry>, handle: u32, from: int)
    requires
        0 <= from <= entries.len(),
    ensures
        from <= handle_pos(entries, handle, from) <= entries.len(),
        handle_pos(entries, handle, from) < entries.len() ==> entries[handle_pos(
            entries,
            handle,
            from,
        )].handle == handle,
        forall|j: int|
            from <= j < handle_pos(entries, handle, from) ==> (#[trigger] entries[j]).handle
                != handle,
    decreases entries.len() - from,
{
    if from < entries.len() && entries[from].handle != handle {
        lemma_handle_pos(entries, handle, from + 1);
    }
}

/// A search by node gives the number of rows or the first matching row.
pub proof fn lemma_id_pos(entries: Seq<HandleEntry>, node: NodeId, from: int)
    requires
        0 <= from <= entries.len(),
    ensures
        from <= id_pos(entries, node, from) <= entries.len(),
        id_pos(entries, node, from) < entries.len() ==> entries[id_pos(
            entries,
            node,
            from,
        )].info.node_ref.node == node,
        forall|j: int|
            from <= j < id_pos(entries, node, from) ==> (#[trigger] entries[j]).info.node_ref.node
                != node,
    decreases entries.len() - from,
{
    if from < entries.len() && entries[from].info.node_ref.node != node {
        lemma_id_pos(entries, node, from + 1);
    }
}

/// In a table with sorted handles and one row per node, the row with a
/// given handle, or for a given node, is the only one.
pub proof fn lemma_row_unique(entries: Seq<HandleEntry>, i: int)
    requires
        handles_sorted(entries),
        ids_unique(entries),
        0 <= i < entries.len(),
    ensures
        handle_pos(entries, entries[i].handle, 0) == i,
        id_pos(entries, entries[i].info.node_ref.node, 0) == i,
{
    lemma_handle_pos(entries, entries[i].handle, 0);
    lemma_id_pos(entries, entries[i].info.node_ref.node, 0);
    let j = handle_pos(entries, entries[i].handle, 0);
    if j < i {
        assert(entries[j].handle < entries[i].handle);
    }
}

/// Every handle from `start` up to, not including, `end` is taken.
pub open spec fn all_taken(entries: Seq<HandleEntry>, start: int, end: int) -> bool {
    forall|h: u32| start <= h < end ==> #[trigger] has_handle(entries, h)
}

/// The first handle that a new row may get.
pub open spec fn first_handle(is_manager: bool) -> u32 {
    if is_manager {
        0
    } else {
        1
    }
}

/// Walks the rows from row `i` on, looking for the lowest unused handle at
/// or above `target`: returns it with the row at which it keeps the table
/// in order, or `None` when the walk runs out of handles.
pub open spec fn scan_unused(entries: Seq<HandleEntry>, i: int, target: u32) -> Option<(u32, int)>
    decreases entries.len() - i,
{
    if i < 0 || i >= entries.len() || entries[i].handle > target {
        Some((target, i))
    } else if entries[i].handle == target {
        if target == u32::MAX {
            None
        } else {
            scan_unused(entries, i + 1, (target + 1) as u32)
        }
    } else {
        scan_unused(entries, i + 1, target)
    }
}

/// The handle for a new row: the lowest unused one, counting from 0 for the
/// context manager and from 1 for any other node.
pub open spec fn lowest_unused(entries: Seq<HandleEntry>, is_manager: bool) -> Option<(u32, int)> {
    scan_unused(entries, 0, first_handle(is_manager))
}

/// What the walk finds is unused, every handle between the start and it is
/// taken, and it belongs at the row returned; the walk fails only when
/// every handle up to the largest is taken.
pub proof fn lemma_scan_unused(entries: Seq<HandleEntry>, i: int, target: u32, start: u32)
    requires
        handles_sorted(entries),
        0 <= i <= entries.len(),
        start <= target,
        all_taken(entries, start as int, target as int),
        forall|j: int| 0 <= j < i ==> (#[trigger] entries[j]).handle < target,
    ensures
        match scan_unused(entries, i, target) {
            Some((h, at)) => {
                &&& start <= h
                &&& !has_handle(entries, h)
                &&& all_taken(entries, start as int, h as int)
                &&& 0 <= at <= entries.len()
                &&& forall|j: int| 0 <= j < at ==> (#[trigger] entries[j]).handle < h
                &&& forall|j: int| at <= j < entries.len() ==> (#[trigger] entries[j]).handle > h
            },
            None => all_taken(entries, start as int, 0x1_0000_0000),
        },
    decreases entries.len() - i,
{
    if i >= entries.len() || entries[i].handle > target {
        assert forall|j: int| i <= j < entries.len() implies (#[trigger] entries[j]).handle
            > target by {
            if j > i {
                assert(entries[i].handle < entries[j].handle);
            }
        }
        lemma_handle_pos(entries, target, 0);
    } else if entries[i].handle == target {
        lemma_handle_pos(entries, target, 0);
        assert(has_handle(entries, target)) by {
            if handle_pos(entries, target, 0) >= entries.len() {
                assert(entries[i].handle != target);
            }
        }
        if target == u32::MAX {
            assert forall|h: u32| start <= h < 0x1_0000_0000 implies #[trigger] has_handle(
                entries,
                h,
            ) by {}
        } else {
            assert forall|h: u32| start <= h < target + 1 implies #[trigger] has_handle(
                entries,
                h,
            ) by {}
            lemma_scan_unused(entries, i + 1, (target + 1) as u32, start);
        }
    } else {
        lemma_scan_unused(entries, i + 1, target, start);
    }
}

/// The table after `insert_or_update_handle`.
pub open spec fn insert_or_update(
    entries: Seq<HandleEntry>,
    node_ref: NodeRef,
    is_manager: bool,
    is_dead: bool,
) -> Seq<HandleEntry> {
    let i = id_pos(entries, node_ref.node, 0);
    if i < entries.len() {
        if entries[i].info.node_ref.can_absorb(&node_ref) {
            entries.update(
                i,
                HandleEntry {
                    handle: entries[i].handle,
                    info: NodeRefInfo {
                        node_ref: entries[i].info.node_ref.absorbed(&node_ref),
                        death: entries[i].info.death,
                    },
                },
            )
        } else {
            entries
        }
    } else {
        match lowest_unused(entries, is_manager) {
            Some((h, at)) => if is_dead {
                entries
            } else {
                entries.insert(
                    at,
                    HandleEntry { handle: h, info: NodeRefInfo { node_ref, death: None } },
                )
            },
            None => entries,
        }
    }
}

/// What `insert_or_update_handle` answers: the handle of the node's row;
/// `NoMem` when the counters of an existing row cannot take the new ones or
/// no handle is left; `Srch` when the process is dead and the node is new.
pub open spec fn insert_or_update_result(
    entries: Seq<HandleEntry>,
    node_ref: NodeRef,
    is_manager: bool,
    is_dead: bool,
) -> Result<u32, BinderError> {
    let i = id_pos(entries, node_ref.node, 0);
    if i < entries.len() {
        if entries[i].info.node_ref.can_absorb(&node_ref) {
            Ok(entries[i].handle)
        } else {
            Err(BinderError::NoMem)
        }
    } else {
        match lowest_unused(entries, is_manager) {
            Some((h, at)) => if is_dead {
                Err(BinderError::Srch)
            } else {
                Ok(h)
            },
            None => Err(BinderError::NoMem),
        }
    }
}

/// Filing a reference keeps the table sorted, with one row per node, and
/// every row valid.
pub proof fn lemma_insert_or_update_wf(
    entries: Seq<HandleEntry>,
    node_ref: NodeRef,
    is_manager: bool,
    is_dead: bool,
    l: Lens,
)
    requires
        handles_sorted(entries),
        ids_unique(entries),
    ensures
        handles_sorted(insert_or_update(entries, node_ref, is_manager, is_dead)),
        ids_unique(insert_or_update(entries, node_ref, is_manager, is_dead)),
        rows_valid(entries, l) && node_ref.node < l.nodes ==> rows_valid(
            insert_or_update(entries, node_ref, is_manager, is_dead),
            l,
        ),
{
    let after = insert_or_update(entries, node_ref, is_manager, is_dead);
    lemma_id_pos(entries, node_ref.node, 0);
    let i = id_pos(entries, node_ref.node, 0);
    if i < entries.len() {
        if entries[i].info.node_ref.can_absorb(&node_ref) {
            assert forall|a: int, b: int| 0 <= a < b < after.len() implies (
            #[trigger] after[a]).handle < (#[trigger] after[b]).handle by {
                assert(entries[a].handle < entries[b].handle);
            }
            assert forall|a: int, b: int|
                0 <= a < after.len() && 0 <= b < after.len() && a != b implies (
            #[trigger] after[a]).info.node_ref.node != (#[trigger] after[b]).info.node_ref.node by {
                assert(entries[a].info.node_ref.node != entries[b].info.node_ref.node);
            }
            if rows_valid(entries, l) && node_ref.node < l.nodes {
                assert forall|a: int| 0 <= a < after.len() implies (
                #[trigger] after[a]).info.node_ref.node < l.nodes && (after[a].info.death.is_some()
                    ==> after[a].info.death.unwrap() < l.deaths) by {
                    assert(entries[a].info.node_ref.node < l.nodes);
                }
            }
        }
    } else {
        lemma_scan_unused(entries, 0, first_handle(is_manager), first_handle(is_manager));
        match lowest_unused(entries, is_manager) {
            Some((h, at)) => {
                if !is_dead {
                    assert forall|a: int, b: int| 0 <= a < b < after.len() implies (
                    #[trigger] after[a]).handle < (#[trigger] after[b]).handle by {
                        let oa = if a < at { a } else { a - 1 };
                        let ob = if b < at { b } else { b - 1 };
                        if a != at && b != at {
                            assert(entries[oa].handle < entries[ob].handle);
                        } else if a == at {
                            assert(entries[ob].handle > h);
                        } else {
                            assert(entries[oa].handle < h);
                        }
                    }
                    assert forall|a: int, b: int|
                        0 <= a < after.len() && 0 <= b < after.len() && a != b implies (
                    #[trigger] after[a]).info.node_ref.node != (
                    #[trigger] after[b]).info.node_ref.node by {
                        let oa = if a < at { a } else { a - 1 };
                        let ob = if b < at { b } else { b - 1 };
                        if a != at && b != at {
                            assert(entries[oa].info.node_ref.node != entries[ob].info.node_ref.node);
                        } else if a == at {
                            assert(entries[ob].info.node_ref.node != node_ref.node);
                        } else {
                            assert(entries[oa].info.node_ref.node != node_ref.node);
                        }
                    }
                    if rows_valid(entries, l) && node_ref.node < l.nodes {
                        assert forall|a: int| 0 <= a < after.len() implies (
                        #[trigger] after[a]).info.node_ref.node < l.nodes && (
                        after[a].info.death.is_some() ==> after[a].info.death.unwrap()
                            < l.deaths) by {
                            let oa = if a < at { a } else { a - 1 };
                            if a != at {
                                assert(entries[oa].info.node_ref.node < l.nodes);
                            }
                        }
                    }
                }
            },
            None => {},
        }
    }
}

/// A node that is new to the table gets the lowest unused handle, and no
/// other row changes. `NoMem` means that every handle up to the largest
/// is taken.
pub proof fn lemma_insert_new(
    entries: Seq<HandleEntry>,
    node_ref: NodeRef,
    is_manager: bool,
    is_dead: bool,
)
    requires
        handles_sorted(entries),
        ids_unique(entries),
        !has_id(entries, node_ref.node),
    ensures
        match insert_or_update_result(entries, node_ref, is_manager, is_dead) {
            Ok(h) => {
                let after = insert_or_update(entries, node_ref, is_manager, is_dead);
                &&& !is_dead
                &&& h >= first_handle(is_manager)
                &&& !has_handle(entries, h)
                &&& all_taken(entries, first_handle(is_manager) as int, h as int)
                &&& has_handle(after, h)
                &&& after[handle_pos(after, h, 0)].info == (NodeRefInfo { node_ref, death: None })
                &&& id_pos(after, node_ref.node, 0) == handle_pos(after, h, 0)
                &&& forall|x: u32|
                    x != h ==> (#[trigger] has_handle(after, x)) == has_handle(entries, x)
                &&& forall|x: u32| #[trigger]
                    has_handle(entries, x) ==> after[handle_pos(after, x, 0)] == entries[handle_pos(
                        entries,
                        x,
                        0,
                    )]
            },
            Err(e) => {
                &&& insert_or_update(entries, node_ref, is_manager, is_dead) == entries
                &&& e == BinderError::NoMem <==> all_taken(
                    entries,
                    first_handle(is_manager) as int,
                    0x1_0000_0000,
                )
                &&& e == BinderError::Srch <==> is_dead && !all_taken(
                    entries,
                    first_handle(is_manager) as int,
                    0x1_0000_0000,
                )
            },
        },
{
    lemma_scan_unused(entries, 0, first_handle(is_manager), first_handle(is_manager));
    lemma_insert_or_update_wf(entries, node_ref, is_manager, is_dead, arbitrary());
    let after = insert_or_update(entries, node_ref, is_manager, is_dead);
    match lowest_unused(entries, is_manager) {
        Some((h, at)) => {
            if !is_dead {
                assert(after[at].handle == h);
                lemma_row_unique(after, at);
                assert forall|x: u32| x != h implies (#[trigger] has_handle(after, x))
                    == has_handle(entries, x) by {
                    lemma_handle_pos(after, x, 0);
                    lemma_handle_pos(entries, x, 0);
                    let i = handle_pos(after, x, 0);
                    if i < after.len() {
                        let oi = if i < at { i } else { i - 1 };
                        assert(entries[oi].handle == x);
                    }
                    let k = handle_pos(entries, x, 0);
                    if k < entries.len() {
                        let nk = if k < at { k } else { k + 1 };
                        assert(after[nk].handle == x);
                    }
                }
                assert forall|x: u32| #[trigger] has_handle(entries, x) implies after[handle_pos(
                    after,
                    x,
                    0,
                )] == entries[handle_pos(entries, x, 0)] by {
                    lemma_handle_pos(entries, x, 0);
                    let k = handle_pos(entries, x, 0);
                    let nk = if k < at { k } else { k + 1 };
                    assert(after[nk].handle == x);
                    lemma_row_unique(after, nk);
                }
            } else {
                assert(!has_handle(entries, h));
            }
        },
        None => {},
    }
}

/// Importing a node a second time yields the handle that the first import
/// gave it, and the row's reference holds the counters of both.
pub proof fn lemma_import_twice(
    entries: Seq<HandleEntry>,
    first: NodeRef,
    second: NodeRef,
    is_manager: bool,
    again_manager: bool,
    again_dead: bool,
)
    requires
        handles_sorted(entries),
        ids_unique(entries),
        !has_id(entries, first.node),
        insert_or_update_result(entries, first, is_manager, false).is_ok(),
        first.can_absorb(&second),
    ensures
        insert_or_update_result(
            insert_or_update(entries, first, is_manager, false),
            second,
            again_manager,
            again_dead,
        ) == insert_or_update_result(entries, first, is_manager, false),
        ({
            let once = insert_or_update(entries, first, is_manager, false);
            let twice = insert_or_update(once, second, again_manager, again_dead);
            let row = id_pos(once, first.node, 0);
            &&& twice.len() == once.len()
            &&& twice[row].info.node_ref == first.absorbed(&second)
            &&& twice[row].handle == once[row].handle
        }),
{
    lemma_insert_new(entries, first, is_manager, false);
    let once = insert_or_update(entries, first, is_manager, false);
    let h = insert_or_update_result(entries, first, is_manager, false).unwrap();
    lemma_id_pos(once, first.node, 0);
    lemma_handle_pos(once, h, 0);
    let row = id_pos(once, first.node, 0);
    assert(row == handle_pos(once, h, 0));
    assert(once[row].handle == h);
    assert(once[row].info.node_ref == first);
    assert(second.node == first.node);
}

/// A table as a map from handle to what is kept for it.
pub open spec fn by_handle(entries: Seq<HandleEntry>) -> Map<u32, NodeRefInfo> {
    Map::new(|h: u32| has_handle(entries, h), |h: u32| entries[handle_pos(entries, h, 0)].info)
}

/// A table as a map from a node's global id to its handle.
pub open spec fn by_global_id(entries: Seq<HandleEntry>) -> Map<NodeId, u32> {
    Map::new(|g: NodeId| has_id(entries, g), |g: NodeId| entries[id_pos(entries, g, 0)].handle)
}

/// The two maps of a table are inverse to each other: the node of a
/// handle's row maps back to the handle, and the handle found under a
/// node's global id has a row that names that node.
pub proof fn lemma_maps_agree(entries: Seq<HandleEntry>)
    requires
        handles_sorted(entries),
        ids_unique(entries),
    ensures
        forall|h: u32| #[trigger]
            by_handle(entries).dom().contains(h) ==> by_global_id(entries).dom().contains(
                by_handle(entries)[h].node_ref.node,
            ) && by_global_id(entries)[by_handle(entries)[h].node_ref.node] == h,
        forall|g: NodeId| #[trigger]
            by_global_id(entries).dom().contains(g) ==> by_handle(entries).dom().contains(
                by_global_id(entries)[g],
            ) && by_handle(entries)[by_global_id(entries)[g]].node_ref.node == g,
{
    assert forall|h: u32| #[trigger] by_handle(entries).dom().contains(h) implies by_global_id(
        entries,
    ).dom().contains(by_handle(entries)[h].node_ref.node) && by_global_id(entries)[by_handle(
        entries,
    )[h].node_ref.node] == h by {
        lemma_handle_pos(entries, h, 0);
        lemma_row_unique(entries, handle_pos(entries, h, 0));
    }
    assert forall|g: NodeId| #[trigger] by_global_id(entries).dom().contains(g) implies by_handle(
        entries,
    ).dom().contains(by_global_id(entries)[g]) && by_handle(entries)[by_global_id(
        entries,
    )[g]].node_ref.node == g by {
        lemma_id_pos(entries, g, 0);
        lemma_row_unique(entries, id_pos(entries, g, 0));
    }
}

impl ProcessNodeRefs {
    pub open spec fn wf(&self) -> bool {
        &&& handles_sorted(self.entries@)
        &&& ids_unique(self.entries@)
    }

    /// The table as a map from handle to what is kept for it.
    pub open spec fn by_handle(&self) -> Map<u32, NodeRefInfo> {
        by_handle(self.entries@)
    }

    /// The table as a map from a node's global id to its handle.
    pub open spec fn by_global_id(&self) -> Map<NodeId, u32> {
        by_global_id(self.entries@)
    }

    pub fn new() -> (r: Self)
        ensures
            r.wf(),
            r.entries@ == Seq::<HandleEntry>::empty(),
    {
        ProcessNodeRefs { entries: Vec::new() }
    }

    /// Finds the row that names this node.
    pub fn find_id(&self, node: NodeId) -> (r: Option<usize>)
        ensures
            r.is_some() == has_id(self.entries@, node),
            r.is_some() ==> r.unwrap() == id_pos(self.entries@, node, 0) && r.unwrap()
                < self.entries@.len() && self.entries@[r.unwrap() as int].info.node_ref.node
                == node,
    {
        let mut i: usize = 0;
        proof {
            lemma_id_pos(self.entries@, node, 0);
        }
        while i < self.entries.len() && self.entries[i].info.node_ref.node != node
            invariant
                i <= self.entries@.len(),
                id_pos(self.entries@, node, 0) == id_pos(self.entries@, node, i as int),
            decreases self.entries@.len() - i,
        {
            i = i + 1;
        }
        if i < self.entries.len() {
            Some(i)
        } else {
            None
        }
    }

    /// Finds the row with this handle.
    pub fn find_handle(&self, handle: u32) -> (r: Option<usize>)
        ensures
            r.is_some() == has_handle(self.entries@, handle),
            r.is_some() ==> r.unwrap() == handle_pos(self.entries@, handle, 0) && r.unwrap()
                < self.entries@.len() && self.entries@[r.unwrap() as int].handle == handle,
    {
        let mut i: usize = 0;
        proof {
            lemma_handle_pos(self.entries@, handle, 0);
        }
        while i < self.entries.len() && self.entries[i].handle != handle
            invariant
                i <= self.entries@.len(),
                handle_pos(self.entries@, handle, 0) == handle_pos(self.entries@, handle, i as int),
            decreases self.entries@.len() - i,
        {
            i = i + 1;
        }
        if i < self.entries.len() {
            Some(i)
        } else {
            None
        }
    }

    /// Picks the handle for a new row and the row at which it belongs.
    pub fn lowest_unused(&self, is_manager: bool) -> (r: Option<(u32, usize)>)
        ensures
            match r {
                Some((h, at)) => lowest_unused(self.entries@, is_manager) == Some((h, at as int)),
                None => lowest_unused(self.entries@, is_manager).is_none(),
            },
            r.is_some() ==> r.unwrap().1 <= self.entries@.len(),
    {
        let mut target: u32 = if is_manager { 0 } else { 1 };
        let mut i: usize = 0;
        while i < self.entries.len() && self.entries[i].handle <= target
            invariant
                i <= self.entries@.len(),
                lowest_unused(self.entries@, is_manager) == scan_unused(
                    self.entries@,
                    i as int,
                    target,
                ),
            decreases self.entries@.len() - i,
        {
            if self.entries[i].handle == target {
                if target == u32::MAX {
                    return None;
                }
                target = target + 1;
            }
            i = i + 1;
        }
        Some((target, i))
    }

    /// Files a reference under a handle.
    ///
    /// A node that has a row keeps its handle, and the row's reference
    /// absorbs the new one; `NoMem` if the counters cannot be summed. A node
    /// without a row gets the lowest unused handle, from 0 for the context
    /// manager and from 1 otherwise: `NoMem` when none is left, `Srch` when
    /// the process is dead. On failure the table is unchanged and the
    /// reference comes back.
    pub fn insert_or_update_handle(
        &mut self,
        node_ref: NodeRef,
        is_manager: bool,
        is_dead: bool,
    ) -> (r: Result<u32, (BinderError, NodeRef)>)
        requires
            old(self).wf(),
        ensures
            final(self).wf(),
            final(self).entries@ == insert_or_update(
                old(self).entries@,
                node_ref,
                is_manager,
                is_dead,
            ),
            match insert_or_update_result(old(self).entries@, node_ref, is_manager, is_dead) {
                Ok(h) => r == Ok::<u32, (BinderError, NodeRef)>(h),
                Err(e) => r == Err::<u32, (BinderError, NodeRef)>((e, node_ref)),
            },
    {
        proof {
            lemma_insert_or_update_wf(old(self).entries@, node_ref, is_manager, is_dead, arbitrary());
        }
        match self.find_id(node_ref.node) {
            Some(i) => {
                if !self.entries[i].info.node_ref.check_absorb(&node_ref) {
                    return Err((BinderError::NoMem, node_ref));
                }
                let handle: u32 = self.entries[i].handle;
                let _rest: NodeRef = self.entries[i].info.node_ref.absorb(node_ref);
                proof {
                    assert(self.entries@ =~= insert_or_update(
                        old(self).entries@,
                        node_ref,
                        is_manager,
                        is_dead,
                    ));
                }
                Ok(handle)
            },
            None => {
                let (target, at): (u32, usize) = match self.lowest_unused(is_manager) {
                    Some(pair) => pair,
                    None => {
                        return Err((BinderError::NoMem, node_ref));
                    },
                };
                if is_dead {
                    return Err((BinderError::Srch, node_ref));
                }
                self.entries.insert(
                    at,
                    HandleEntry { handle: target, info: NodeRefInfo::new(node_ref) },
                );
                Ok(target)
            },
        }
    }

    /// Applies `NodeRef::update` to the reference in row `i`.
    pub fn update_row(&mut self, i: usize, inc: bool, strong: bool) -> (r: RefUpdate)
        requires
            i < old(self).entries@.len(),
        ensures
            r == old(self).entries@[i as int].info.node_ref.update_outcome(inc, strong),
            final(self).entries@ == row_updated(old(self).entries@, i as int, inc, strong),
    {
        let r = self.entries[i].info.node_ref.update(inc, strong);
        proof {
            assert(self.entries@ =~= row_updated(old(self).entries@, i as int, inc, strong));
        }
        r
    }

    /// Replaces the death subscription kept in row `i` and returns the old one.
    pub fn replace_death(&mut self, i: usize, death: Option<DeathId>) -> (r: Option<DeathId>)
        requires
            i < old(self).entries@.len(),
        ensures
            r == old(self).entries@[i as int].info.death,
            final(self).entries@ == with_death(old(self).entries@, i as int, death),
    {
        let r = self.entries[i].info.death;
        self.entries[i].info.death = death;
        proof {
            assert(self.entries@ =~= with_death(old(self).entries@, i as int, death));
        }
        r
    }

    /// Takes row `i` out of the table.
    pub fn remove_row(&mut self, i: usize) -> (r: HandleEntry)
        requires
            i < old(self).entries@.len(),
        ensures
            r == old(self).entries@[i as int],
            final(self).entries@ == old(self).entries@.remove(i as int),
    {
        self.entries.remove(i)
    }

    /// Empties the table and returns its rows in order of handle.
    pub fn take_all(&mut self) -> (r: Vec<HandleEntry>)
        ensures
            final(self).entries@ == Seq::<HandleEntry>::empty(),
            r@ == old(self).entries@,
    {
        let mut out: Vec<HandleEntry> = Vec::new();
        out.append(&mut self.entries);
        proof {
            assert(out@ =~= old(self).entries@);
        }
        out
    }
}

/// The table with `NodeRef::update` applied to the reference in row `i`.
pub open spec fn row_updated(entries: Seq<HandleEntry>, i: int, inc: bool, strong: bool) -> Seq<
    HandleEntry,
> {
    entries.update(
        i,
        HandleEntry {
            handle: entries[i].handle,
            info: NodeRefInfo {
                node_ref: entries[i].info.node_ref.updated(inc, strong),
                death: entries[i].info.death,
            },
        },
    )
}

/// The table with the death subscription of row `i` replaced.
pub open spec fn with_death(entries: Seq<HandleEntry>, i: int, death: Option<DeathId>) -> Seq<
    HandleEntry,
> {
    entries.update(
        i,
        HandleEntry {
            handle: entries[i].handle,
            info: NodeRefInfo { node_ref: entries[i].info.node_ref, death },
        },
    )
}

/// Changing what a row keeps, but neither its handle nor its node, and
/// taking a row out, keep the table sorted with one row per node.
pub proof fn lemma_rows_keep_wf(entries: Seq<HandleEntry>, i: int, row: HandleEntry, l: Lens)
    requires
        handles_sorted(entries),
        ids_unique(entries),
        0 <= i < entries.len(),
        row.handle == entries[i].handle,
        row.info.node_ref.node == entries[i].info.node_ref.node,
    ensures
        handles_sorted(entries.update(i, row)),
        ids_unique(entries.update(i, row)),
        handles_sorted(entries.remove(i)),
        ids_unique(entries.remove(i)),
        rows_valid(entries, l) ==> rows_valid(entries.remove(i), l),
        rows_valid(entries, l) && (row.info.death.is_some() ==> row.info.death.unwrap() < l.deaths)
            ==> rows_valid(entries.update(i, row), l),
{
    let up = entries.update(i, row);
    let rm = entries.remove(i);
    assert forall|a: int, b: int| 0 <= a < b < up.len() implies (#[trigger] up[a]).handle < (
    #[trigger] up[b]).handle by {
        assert(entries[a].handle < entries[b].handle);
    }
    assert forall|a: int, b: int| 0 <= a < up.len() && 0 <= b < up.len() && a != b implies (
    #[trigger] up[a]).info.node_ref.node != (#[trigger] up[b]).info.node_ref.node by {
        assert(entries[a].info.node_ref.node != entries[b].info.node_ref.node);
    }
    assert forall|a: int, b: int| 0 <= a < b < rm.len() implies (#[trigger] rm[a]).handle < (
    #[trigger] rm[b]).handle by {
        let oa = if a < i { a } else { a + 1 };
        let ob = if b < i { b } else { b + 1 };
        assert(entries[oa].handle < entries[ob].handle);
    }
    assert forall|a: int, b: int| 0 <= a < rm.len() && 0 <= b < rm.len() && a != b implies (
    #[trigger] rm[a]).info.node_ref.node != (#[trigger] rm[b]).info.node_ref.node by {
        let oa = if a < i { a } else { a + 1 };
        let ob = if b < i { b } else { b + 1 };
        assert(entries[oa].info.node_ref.node != entries[ob].info.node_ref.node);
    }
    if rows_valid(entries, l) {
        assert forall|a: int| 0 <= a < rm.len() implies (#[trigger] rm[a]).info.node_ref.node
            < l.nodes && (rm[a].info.death.is_some() ==> rm[a].info.death.unwrap() < l.deaths) by {
            let oa = if a < i { a } else { a + 1 };
            assert(entries[oa].info.node_ref.node < l.nodes);
        }
        if row.info.death.is_some() ==> row.info.death.unwrap() < l.deaths {
            assert forall|a: int| 0 <= a < up.len() implies (#[trigger] up[a]).info.node_ref.node
                < l.nodes && (up[a].info.death.is_some() ==> up[a].info.death.unwrap()
                < l.deaths) by {
                assert(entries[a].info.node_ref.node < l.nodes);
            }
        }
    }
}

} // verus!

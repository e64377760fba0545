//! Protocol constants and the error kinds seen at the boundary of the engine.

use vstd::prelude::*;

verus! {

/// Index of a process in the engine's process arena.
pub type ProcId = usize;

/// Index of a thread in the engine's thread arena.
pub type ThreadId = usize;

/// Index of a node in the engine's node arena.
pub type NodeId = usize;

/// Index of a death subscription in the engine's arena.
pub type DeathId = usize;

/// Index of a transaction in the engine's transaction arena.
pub type TxnId = usize;

/// Index of a context in the registry.
pub type ContextId = usize;

/// Direction bits of a command number: no payload.
pub const IOC_NONE: u32 = 0;

/// Direction bits of a command number: userspace writes the payload.
pub const IOC_WRITE: u32 = 1;

/// Direction bits of a command number: userspace reads the payload.
pub const IOC_READ: u32 = 2;

/// The number that a command with the given direction, family letter,
/// sequence number and payload size has on the wire.
pub open spec fn ioc_spec(dir: int, ty: int, nr: int, size: int) -> int {
    dir * 0x4000_0000 + size * 0x1_0000 + ty * 0x100 + nr
}

/// Computes a command number from its four fields.
pub fn ioc(dir: u32, ty: u8, nr: u8, size: u32) -> (r: u32)
    requires
        dir < 4,
        size < 0x4000,
    ensures
        r == ioc_spec(dir as int, ty as int, nr as int, size as int),
{
    let ty32: u32 = ty as u32;
    let nr32: u32 = nr as u32;
    dir * 0x4000_0000 + size * 0x1_0000 + ty32 * 0x100 + nr32
}

/// Size in bytes of a transaction header as written to a reader.
pub const TRANSACTION_DATA_SIZE: usize = 64;

/// Size in bytes of a transaction header followed by a security-context pointer.
pub const TRANSACTION_DATA_SECCTX_SIZE: usize = 72;

/// Size in bytes of a pointer/cookie pair.
pub const PTR_COOKIE_SIZE: usize = 16;

pub const BR_ERROR: u32 = 0x8004_7200;
pub const BR_OK: u32 = 0x7201;
pub const BR_TRANSACTION_SEC_CTX: u32 = 0x8048_7202;
pub const BR_TRANSACTION: u32 = 0x8040_7202;
pub const BR_REPLY: u32 = 0x8040_7203;
pub const BR_DEAD_REPLY: u32 = 0x7205;
pub const BR_TRANSACTION_COMPLETE: u32 = 0x7206;
pub const BR_INCREFS: u32 = 0x8010_7207;
pub const BR_ACQUIRE: u32 = 0x8010_7208;
pub const BR_RELEASE: u32 = 0x8010_7209;
pub const BR_DECREFS: u32 = 0x8010_720a;
pub const BR_NOOP: u32 = 0x720c;
pub const BR_SPAWN_LOOPER: u32 = 0x720d;
pub const BR_DEAD_BINDER: u32 = 0x8008_720f;
pub const BR_CLEAR_DEATH_NOTIFICATION_DONE: u32 = 0x8008_7210;
pub const BR_FAILED_REPLY: u32 = 0x7211;

pub const BC_TRANSACTION: u32 = 0x4040_6300;
pub const BC_REPLY: u32 = 0x4040_6301;
pub const BC_FREE_BUFFER: u32 = 0x4008_6303;
pub const BC_INCREFS: u32 = 0x4004_6304;
pub const BC_ACQUIRE: u32 = 0x4004_6305;
pub const BC_RELEASE: u32 = 0x4004_6306;
pub const BC_DECREFS: u32 = 0x4004_6307;
pub const BC_INCREFS_DONE: u32 = 0x4010_6308;
pub const BC_ACQUIRE_DONE: u32 = 0x4010_6309;
pub const BC_REGISTER_LOOPER: u32 = 0x630b;
pub const BC_ENTER_LOOPER: u32 = 0x630c;
pub const BC_EXIT_LOOPER: u32 = 0x630d;
pub const BC_REQUEST_DEATH_NOTIFICATION: u32 = 0x400c_630e;
pub const BC_CLEAR_DEATH_NOTIFICATION: u32 = 0x400c_630f;
pub const BC_DEAD_BINDER_DONE: u32 = 0x4008_6310;
pub const BC_TRANSACTION_SG: u32 = 0x4048_6311;
pub const BC_REPLY_SG: u32 = 0x4048_6312;

/// The return and command opcodes are the canonical encodings of their
/// direction, family (`'r'` for returns, `'c'` for commands), sequence number
/// and payload size.
pub proof fn lemma_opcode_encoding()
    ensures
        BR_ERROR == ioc_spec(2, 0x72, 0, 4),
        BR_OK == ioc_spec(0, 0x72, 1, 0),
        BR_TRANSACTION_SEC_CTX == ioc_spec(2, 0x72, 2, TRANSACTION_DATA_SECCTX_SIZE as int),
        BR_TRANSACTION == ioc_spec(2, 0x72, 2, TRANSACTION_DATA_SIZE as int),
        BR_REPLY == ioc_spec(2, 0x72, 3, TRANSACTION_DATA_SIZE as int),
        BR_DEAD_REPLY == ioc_spec(0, 0x72, 5, 0),
        BR_TRANSACTION_COMPLETE == ioc_spec(0, 0x72, 6, 0),
        BR_INCREFS == ioc_spec(2, 0x72, 7, PTR_COOKIE_SIZE as int),
        BR_ACQUIRE == ioc_spec(2, 0x72, 8, PTR_COOKIE_SIZE as int),
        BR_RELEASE == ioc_spec(2, 0x72, 9, PTR_COOKIE_SIZE as int),
        BR_DECREFS == ioc_spec(2, 0x72, 10, PTR_COOKIE_SIZE as int),
        BR_NOOP == ioc_spec(0, 0x72, 12, 0),
        BR_SPAWN_LOOPER == ioc_spec(0, 0x72, 13, 0),
        BR_DEAD_BINDER == ioc_spec(2, 0x72, 15, 8),
        BR_CLEAR_DEATH_NOTIFICATION_DONE == ioc_spec(2, 0x72, 16, 8),
        BR_FAILED_REPLY == ioc_spec(0, 0x72, 17, 0),
        BC_TRANSACTION == ioc_spec(1, 0x63, 0, TRANSACTION_DATA_SIZE as int),
        BC_REPLY == ioc_spec(1, 0x63, 1, TRANSACTION_DATA_SIZE as int),
        BC_FREE_BUFFER == ioc_spec(1, 0x63, 3, 8),
        BC_INCREFS == ioc_spec(1, 0x63, 4, 4),
        BC_ACQUIRE == ioc_spec(1, 0x63, 5, 4),
        BC_RELEASE == ioc_spec(1, 0x63, 6, 4),
        BC_DECREFS == ioc_spec(1, 0x63, 7, 4),
        BC_INCREFS_DONE == ioc_spec(1, 0x63, 8, PTR_COOKIE_SIZE as int),
        BC_ACQUIRE_DONE == ioc_spec(1, 0x63, 9, PTR_COOKIE_SIZE as int),
        BC_REGISTER_LOOPER == ioc_spec(0, 0x63, 11, 0),
        BC_ENTER_LOOPER == ioc_spec(0, 0x63, 12, 0),
        BC_EXIT_LOOPER == ioc_spec(0, 0x63, 13, 0),
        BC_REQUEST_DEATH_NOTIFICATION == ioc_spec(1, 0x63, 14, 12),
        BC_CLEAR_DEATH_NOTIFICATION == ioc_spec(1, 0x63, 15, 12),
        BC_DEAD_BINDER_DONE == ioc_spec(1, 0x63, 16, 8),
        BC_TRANSACTION_SG == ioc_spec(1, 0x63, 17, TRANSACTION_DATA_SECCTX_SIZE as int),
        BC_REPLY_SG == ioc_spec(1, 0x63, 18, TRANSACTION_DATA_SECCTX_SIZE as int),
{
}

/// Transaction flag: the sender does not wait for a reply.
pub const TF_ONE_WAY: u32 = 0x01;

/// Transaction flag: the recipient may receive file descriptors in the reply.
pub const TF_ACCEPT_FDS: u32 = 0x10;

/// Transaction flag: zero the payload when its buffer is freed.
pub const TF_CLEAR_BUF: u32 = 0x20;

/// Node flag: transactions to this node may carry file descriptors.
pub const FLAT_BINDER_FLAG_ACCEPTS_FDS: u32 = 0x100;

/// Node flag: transactions to this node carry the sender's security context.
pub const FLAT_BINDER_FLAG_TXN_SECURITY_CTX: u32 = 0x1000;

/// Whether a flag word has any bit of the mask `bit` set.
pub open spec fn has_flag(flags: u32, bit: u32) -> bool {
    flags & bit != 0
}

/// Whether a flag word has any bit of `bit` set.
pub fn flag_set(flags: u32, bit: u32) -> (r: bool)
    ensures
        r == has_flag(flags, bit),
{
    flags & bit != 0
}

/// Deferred-work bit: wake every thread so that it returns to userspace.
pub const PROC_DEFER_FLUSH: u8 = 1;

/// Deferred-work bit: tear the process down.
pub const PROC_DEFER_RELEASE: u8 = 2;

/// Largest buffer arena that a process can map.
pub const MAX_MAPPING_SIZE: usize = 0x40_0000;

/// The error kinds that the engine reports.
#[derive(Clone, Copy, Debug, PartialEq, Eq, Structural)]
pub enum BinderError {
    /// The target process is dead.
    Dead,
    /// A transaction could not be built or dispatched.
    Failed,
    /// A file descriptor does not name an open file.
    BadFd,
    /// An argument is not valid in the current state.
    BadArg,
    /// The caller is not allowed to do this.
    Perm,
    /// The slot is already taken.
    Busy,
    /// No memory, no buffer space or no free handle.
    NoMem,
    /// No entry for the given handle.
    NoEnt,
    /// The process that the request is for is gone.
    Srch,
    /// A read or write ran past the end of the user buffer.
    Fault,
}

impl BinderError {
    /// The errno that stands for this error at the ioctl boundary. `Dead` and
    /// `Failed` have none: they reach the sender in-band, as a reply command.
    pub open spec fn errno_spec(self) -> Option<int> {
        match self {
            BinderError::Dead => None,
            BinderError::Failed => None,
            BinderError::BadFd => Some(9int),
            BinderError::BadArg => Some(22int),
            BinderError::Perm => Some(1int),
            BinderError::Busy => Some(16int),
            BinderError::NoMem => Some(12int),
            BinderError::NoEnt => Some(2int),
            BinderError::Srch => Some(3int),
            BinderError::Fault => Some(14int),
        }
    }

    /// The errno that stands for this error at the ioctl boundary, if it has one.
    pub fn errno(&self) -> (r: Option<i32>)
        ensures
            r.is_some() == self.errno_spec().is_some(),
            r.is_some() ==> r.unwrap() as int == self.errno_spec().unwrap(),
    {
        match self {
            BinderError::Dead => None,
            BinderError::Failed => None,
            BinderError::BadFd => Some(9),
            BinderError::BadArg => Some(22),
            BinderError::Perm => Some(1),
            BinderError::Busy => Some(16),
            BinderError::NoMem => Some(12),
            BinderError::NoEnt => Some(2),
            BinderError::Srch => Some(3),
            BinderError::Fault => Some(14),
        }
    }

    /// The return command that tells a synchronous sender about this error:
    /// a dead target gives `BR_DEAD_REPLY`, everything else `BR_FAILED_REPLY`.
    pub open spec fn reply_code_spec(self) -> u32 {
        if self == BinderError::Dead {
            BR_DEAD_REPLY
        } else {
            BR_FAILED_REPLY
        }
    }

    /// The return command that tells a synchronous sender about this error.
    pub fn reply_code(&self) -> (r: u32)
        ensures
            r == self.reply_code_spec(),
    {
        match self {
            BinderError::Dead => BR_DEAD_REPLY,
            _ => BR_FAILED_REPLY,
        }
    }
}

/// One entry of a work queue: something to deliver to a reading thread.
#[derive(Clone, Copy, Debug, PartialEq, Eq, Structural)]
pub enum WorkItem {
    /// A transaction or a reply.
    Transaction(TxnId),
    /// A node whose reference counts may need reporting to its owner.
    Node(NodeId),
    /// A death subscription with something to tell the subscriber.
    NodeDeath(DeathId),
    /// A bare return command.
    Return(u32),
}

/// The sizes of the engine's arenas: an index is valid while it is below
/// the size of its arena. Arenas only grow, so a valid index stays valid.
pub struct Lens {
    pub contexts: int,
    pub procs: int,
    pub threads: int,
    pub nodes: int,
    pub deaths: int,
    pub txns: int,
}

impl Lens {
    /// No arena of `self` is larger than in `other`.
    pub open spec fn le(self, other: Lens) -> bool {
        &&& self.contexts <= other.contexts
        &&& self.procs <= other.procs
        &&& self.threads <= other.threads
        &&& self.nodes <= other.nodes
        &&& self.deaths <= other.deaths
        &&& self.txns <= other.txns
    }
}

impl WorkItem {
    /// The object that the item names exists.
    pub open spec fn valid(self, l: Lens) -> bool {
        match self {
            WorkItem::Transaction(t) => t < l.txns,
            WorkItem::Node(n) => n < l.nodes,
            WorkItem::NodeDeath(d) => d < l.deaths,
            WorkItem::Return(_) => true,
        }
    }
}

/// Every item of a queue names an object that exists.
pub open spec fn items_valid(items: Seq<WorkItem>, l: Lens) -> bool {
    forall|i: int| 0 <= i < items.len() ==> (#[trigger] items[i]).valid(l)
}

/// Every index of a list is below `bound`.
pub open spec fn ids_below(ids: Seq<usize>, bound: int) -> bool {
    forall|i: int| 0 <= i < ids.len() ==> (#[trigger] ids[i]) < bound
}

/// Appending a valid index, and dropping the first or any other entry,
/// keep every index of a list below the bound.
pub proof fn lemma_ids_below_ops(ids: Seq<usize>, bound: int, x: usize, i: int)
    requires
        ids_below(ids, bound),
    ensures
        x < bound ==> ids_below(ids.push(x), bound),
        ids.len() > 0 ==> ids_below(ids.drop_first(), bound),
        0 <= i < ids.len() ==> ids_below(ids.remove(i), bound),
        0 <= i < ids.len() ==> ids[i] < bound,
{
    if x < bound {
        assert forall|k: int| 0 <= k < ids.push(x).len() implies (#[trigger] ids.push(x)[k])
            < bound by {
            if k < ids.len() {
                assert(ids.push(x)[k] == ids[k]);
            }
        }
    }
    if ids.len() > 0 {
        assert forall|k: int| 0 <= k < ids.drop_first().len() implies (
        #[trigger] ids.drop_first()[k]) < bound by {
            assert(ids.drop_first()[k] == ids[k + 1]);
        }
    }
    if 0 <= i < ids.len() {
        assert forall|k: int| 0 <= k < ids.remove(i).len() implies (#[trigger] ids.remove(i)[k])
            < bound by {
            if k < i {
                assert(ids.remove(i)[k] == ids[k]);
            } else {
                assert(ids.remove(i)[k] == ids[k + 1]);
            }
        }
    }
}

/// Appending a valid item, and dropping the first one, keep every item of a
/// queue valid.
pub proof fn lemma_items_valid_ops(items: Seq<WorkItem>, l: Lens, x: WorkItem)
    requires
        items_valid(items, l),
    ensures
        x.valid(l) ==> items_valid(items.push(x), l),
        items.len() > 0 ==> items_valid(items.drop_first(), l) && items[0].valid(l),
{
    if x.valid(l) {
        assert forall|k: int| 0 <= k < items.push(x).len() implies (
        #[trigger] items.push(x)[k]).valid(l) by {
            if k < items.len() {
                assert(items.push(x)[k] == items[k]);
            }
        }
    }
    if items.len() > 0 {
        assert forall|k: int| 0 <= k < items.drop_first().len() implies (
        #[trigger] items.drop_first()[k]).valid(l) by {
            assert(items.drop_first()[k] == items[k + 1]);
        }
    }
}

} // verus!

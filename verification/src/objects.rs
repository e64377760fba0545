//! Objects embedded in a payload: references to nodes, by address or by
//! handle, and file descriptors. Each is a record of 24 bytes in the
//! payload, found through the list of offsets that follows the data.

use vstd::prelude::*;
use vstd::bytes::{
    lemma_auto_spec_u32_to_from_le_bytes, lemma_auto_spec_u64_to_from_le_bytes,
    spec_u32_from_le_bytes, spec_u32_to_le_bytes, spec_u64_from_le_bytes, spec_u64_to_le_bytes,
    u32_from_le_bytes, u32_to_le_bytes, u64_from_le_bytes, u64_to_le_bytes,
};
use vstd::slice::slice_subrange;
use crate::binder::{Binder, BinderView};
use crate::defs::ProcId;
use crate::user_ptr::{ReadableFromBytes, WritableToBytes};

verus! {

/// Object type: a strong reference to a node, named by its owner's address.
pub const BINDER_TYPE_BINDER: u32 = 0x7362_2a85;

/// Object type: a weak reference to a node, named by its owner's address.
pub const BINDER_TYPE_WEAK_BINDER: u32 = 0x7762_2a85;

/// Object type: a strong reference to a node, named by handle.
pub const BINDER_TYPE_HANDLE: u32 = 0x7368_2a85;

/// Object type: a weak reference to a node, named by handle.
pub const BINDER_TYPE_WEAK_HANDLE: u32 = 0x7768_2a85;

/// Object type: a file descriptor.
pub const BINDER_TYPE_FD: u32 = 0x6664_2a85;

/// Size in bytes of an embedded object.
pub const OBJECT_SIZE: usize = 24;

/// An embedded object.
#[derive(Clone, Copy, Debug, PartialEq, Eq, Structural)]
pub struct FlatBinderObject {
    pub ty: u32,
    pub flags: u32,
    /// The node's address in its owner, the handle, or the descriptor number.
    pub value: u64,
    pub cookie: u64,
}

impl FlatBinderObject {
    /// The object that 24 bytes stand for.
    pub open spec fn decode_spec(b: Seq<u8>) -> FlatBinderObject {
        FlatBinderObject {
            ty: spec_u32_from_le_bytes(b.subrange(0, 4)),
            flags: spec_u32_from_le_bytes(b.subrange(4, 8)),
            value: spec_u64_from_le_bytes(b.subrange(8, 16)),
            cookie: spec_u64_from_le_bytes(b.subrange(16, 24)),
        }
    }

    /// The 24 bytes that stand for the object.
    pub open spec fn encode_spec(self) -> Seq<u8> {
        spec_u32_to_le_bytes(self.ty) + spec_u32_to_le_bytes(self.flags) + spec_u64_to_le_bytes(
            self.value,
        ) + spec_u64_to_le_bytes(self.cookie)
    }

    /// Decoding what was encoded gives the object back.
    pub proof fn lemma_roundtrip(self)
        ensures
            self.encode_spec().len() == 24,
            Self::decode_spec(self.encode_spec()) == self,
    {
        lemma_auto_spec_u32_to_from_le_bytes();
        lemma_auto_spec_u64_to_from_le_bytes();
        let b = self.encode_spec();
        assert(spec_u32_to_le_bytes(self.ty).len() == 4);
        assert(spec_u32_to_le_bytes(self.flags).len() == 4);
        assert(spec_u64_to_le_bytes(self.value).len() == 8);
        assert(spec_u64_to_le_bytes(self.cookie).len() == 8);
        assert(b.subrange(0, 4) =~= spec_u32_to_le_bytes(self.ty));
        assert(b.subrange(4, 8) =~= spec_u32_to_le_bytes(self.flags));
        assert(b.subrange(8, 16) =~= spec_u64_to_le_bytes(self.value));
        assert(b.subrange(16, 24) =~= spec_u64_to_le_bytes(self.cookie));
    }

    /// Reads an object from 24 bytes.
    pub fn decode(bytes: &[u8]) -> (r: Self)
        requires
            bytes@.len() == 24,
        ensures
            r == Self::decode_spec(bytes@),
    {
        FlatBinderObject {
            ty: u32_from_le_bytes(slice_subrange(bytes, 0, 4)),
            flags: u32_from_le_bytes(slice_subrange(bytes, 4, 8)),
            value: u64_from_le_bytes(slice_subrange(bytes, 8, 16)),
            cookie: u64_from_le_bytes(slice_subrange(bytes, 16, 24)),
        }
    }

    /// Writes the object as 24 bytes.
    pub fn encode(&self) -> (r: Vec<u8>)
        ensures
            r@ == self.encode_spec(),
            r@.len() == 24,
    {
        let mut out: Vec<u8> = u32_to_le_bytes(self.ty);
        let mut b: Vec<u8> = u32_to_le_bytes(self.flags);
        out.append(&mut b);
        let mut c: Vec<u8> = u64_to_le_bytes(self.value);
        out.append(&mut c);
        let mut d: Vec<u8> = u64_to_le_bytes(self.cookie);
        out.append(&mut d);
        out
    }

    /// A reference to a node by the address that its owner knows it under.
    pub fn new_binder(ptr: usize, cookie: usize, flags: u32, strong: bool) -> (r: Self)
        ensures
            r == (FlatBinderObject {
                ty: if strong { BINDER_TYPE_BINDER } else { BINDER_TYPE_WEAK_BINDER },
                flags,
                value: ptr as u64,
                cookie: cookie as u64,
            }),
    {
        FlatBinderObject {
            ty: if strong { BINDER_TYPE_BINDER } else { BINDER_TYPE_WEAK_BINDER },
            flags,
            value: ptr as u64,
            cookie: cookie as u64,
        }
    }

    /// A reference to a node by handle.
    pub fn new_handle(handle: u32, flags: u32, strong: bool) -> (r: Self)
        ensures
            r == (FlatBinderObject {
                ty: if strong { BINDER_TYPE_HANDLE } else { BINDER_TYPE_WEAK_HANDLE },
                flags,
                value: handle as u64,
                cookie: 0,
            }),
    {
        FlatBinderObject {
            ty: if strong { BINDER_TYPE_HANDLE } else { BINDER_TYPE_WEAK_HANDLE },
            flags,
            value: handle as u64,
            cookie: 0,
        }
    }

    /// Whether the object names a node by address.
    pub open spec fn is_binder(self) -> bool {
        self.ty == BINDER_TYPE_BINDER || self.ty == BINDER_TYPE_WEAK_BINDER
    }

    /// Whether the object names a node by handle.
    pub open spec fn is_handle(self) -> bool {
        self.ty == BINDER_TYPE_HANDLE || self.ty == BINDER_TYPE_WEAK_HANDLE
    }

    /// Whether the object stands for a strong reference.
    pub open spec fn is_strong(self) -> bool {
        self.ty == BINDER_TYPE_BINDER || self.ty == BINDER_TYPE_HANDLE
    }
}

impl ReadableFromBytes for FlatBinderObject {
    open spec fn size_spec() -> nat {
        24
    }

    open spec fn from_bytes_spec(bytes: Seq<u8>) -> FlatBinderObject {
        FlatBinderObject::decode_spec(bytes)
    }

    fn size() -> (r: usize) {
        24
    }

    fn from_bytes(bytes: &[u8]) -> (r: FlatBinderObject) {
        FlatBinderObject::decode(bytes)
    }
}

impl WritableToBytes for FlatBinderObject {
    open spec fn bytes_spec(&self) -> Seq<u8> {
        self.encode_spec()
    }

    fn to_bytes(&self) -> (r: Vec<u8>) {
        self.encode()
    }
}

impl BinderView {
    /// The object stored at `at` in the arena of process `p`.
    pub open spec fn read_object(self, p: int, at: usize) -> Option<FlatBinderObject> {
        match self.buffer_read(p, at, 24) {
            Some(b) => Some(FlatBinderObject::decode_spec(b)),
            None => None,
        }
    }

    /// The 64-bit number stored at `at` in the arena of process `p`.
    pub open spec fn read_u64(self, p: int, at: usize) -> Option<u64> {
        match self.buffer_read(p, at, 8) {
            Some(b) => Some(spec_u64_from_le_bytes(b)),
            None => None,
        }
    }

    /// The engine after the reference behind one embedded object was given
    /// up. `base` is where the buffer starts in the arena, `limit` the size
    /// of its data, `off` the place of the object in the data. A node named
    /// by address loses one reference; a handle loses one count.
    pub open spec fn cleanup_object(self, p: int, base: usize, limit: usize, off: u64) -> BinderView {
        if off + 24 > limit || base + off > usize::MAX {
            self
        } else {
            match self.read_object(p, (base + off) as usize) {
                None => self,
                Some(o) => if o.is_binder() {
                    self.update_node(p, o.value as usize, o.cookie as usize, o.is_strong())
                } else if o.is_handle() {
                    self.update_ref(p, o.value as u32, false, o.is_strong())
                } else {
                    self
                },
            }
        }
    }

    /// The engine after the references behind the embedded objects of a
    /// buffer were given up, in the order of the list of offsets, which
    /// lies at `[start, end)` in the buffer.
    pub open spec fn cleanup_objects(self, p: int, base: usize, limit: usize, start: usize, end: usize) -> BinderView
        decreases end - start,
    {
        if start + 8 > end || base + start > usize::MAX {
            self
        } else {
            match self.read_u64(p, (base + start) as usize) {
                None => self,
                Some(off) => self.cleanup_object(p, base, limit, off).cleanup_objects(
                    p,
                    base,
                    limit,
                    (start + 8) as usize,
                    end,
                ),
            }
        }
    }
}

impl Binder {
    /// Reads the object stored at `at` in the arena of process `p`.
    pub fn buffer_read_object(&self, p: ProcId, at: usize) -> (r: Option<FlatBinderObject>)
        requires
            self@.wf(),
            p < self@.procs.len(),
        ensures
            r == self@.read_object(p as int, at),
    {
        match self.buffer_read(p, at, 24) {
            Some(b) => Some(FlatBinderObject::decode(b.as_slice())),
            None => None,
        }
    }

    /// Reads the 64-bit number stored at `at` in the arena of process `p`.
    pub fn buffer_read_u64(&self, p: ProcId, at: usize) -> (r: Option<u64>)
        requires
            self@.wf(),
            p < self@.procs.len(),
        ensures
            r == self@.read_u64(p as int, at),
    {
        match self.buffer_read(p, at, 8) {
            Some(b) => Some(u64_from_le_bytes(b.as_slice())),
            None => None,
        }
    }

    /// Gives up the reference behind one embedded object of a buffer that
    /// is being freed.
    pub fn cleanup_object(&mut self, p: ProcId, base: usize, limit: usize, off: u64)
        requires
            old(self)@.wf(),
            p < old(self)@.procs.len(),
        ensures
            final(self)@ == old(self)@.cleanup_object(p as int, base, limit, off),
            final(self)@.wf(),
            final(self)@.extends(old(self)@),
            final(self)@.stays_down(old(self)@),
            final(self)@.same_oneway(old(self)@),
            final(self)@.lens() == old(self)@.lens(),
    {
        if limit < 24 || off > (limit - 24) as u64 || off > (usize::MAX - base) as u64 {
            return ;
        }
        let at: usize = base + off as usize;
        match self.buffer_read_object(p, at) {
            None => {},
            Some(o) => {
                let strong: bool = o.ty == BINDER_TYPE_BINDER || o.ty == BINDER_TYPE_HANDLE;
                if o.ty == BINDER_TYPE_BINDER || o.ty == BINDER_TYPE_WEAK_BINDER {
                    self.update_node(p, o.value as usize, o.cookie as usize, strong);
                } else if o.ty == BINDER_TYPE_HANDLE || o.ty == BINDER_TYPE_WEAK_HANDLE {
                    let _ = self.update_ref(p, o.value as u32, false, strong);
                }
            },
        }
    }

    /// Gives up the references behind the embedded objects of a buffer
    /// that is being freed.
    pub fn cleanup_objects(&mut self, p: ProcId, base: usize, limit: usize, start: usize, end: usize)
        requires
            old(self)@.wf(),
            p < old(self)@.procs.len(),
        ensures
            final(self)@ == old(self)@.cleanup_objects(p as int, base, limit, start, end),
            final(self)@.wf(),
            final(self)@.extends(old(self)@),
            final(self)@.stays_down(old(self)@),
            final(self)@.same_oneway(old(self)@),
            final(self)@.lens() == old(self)@.lens(),
    {
        let mut cur: usize = start;
        loop
            invariant
                self@.wf(),
                p < self@.procs.len(),
                self@.lens() == old(self)@.lens(),
                self@.extends(old(self)@),
                self@.stays_down(old(self)@),
                self@.same_oneway(old(self)@),
                self@.cleanup_objects(p as int, base, limit, cur, end) == old(self)@.cleanup_objects(
                    p as int,
                    base,
                    limit,
                    start,
                    end,
                ),
            decreases end - cur,
        {
            if end < 8 || cur > end - 8 || cur > usize::MAX - base {
                return ;
            }
            match self.buffer_read_u64(p, base + cur) {
                None => {
                    return ;
                },
                Some(off) => {
                    self.cleanup_object(p, base, limit, off);
                    cur = cur + 8;
                },
            }
        }
    }
}

} // verus!

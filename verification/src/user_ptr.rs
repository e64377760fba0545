//! Readers and writers over a block of user memory, held as bytes.
//!
//! A reader hands out each byte at most once, front to back; a writer fills
//! a buffer of fixed size, front to back. Values cross the boundary in
//! little-endian byte order.

use vstd::prelude::*;
use vstd::bytes::{
    spec_u32_from_le_bytes, spec_u32_to_le_bytes, spec_u64_from_le_bytes, spec_u64_to_le_bytes,
    u32_from_le_bytes, u32_to_le_bytes, u64_from_le_bytes, u64_to_le_bytes,
};
use vstd::slice::slice_subrange;
use crate::defs::BinderError;

verus! {

/// A type whose every bit pattern is a value, so that it can be read from
/// raw bytes.
pub trait ReadableFromBytes: Sized {
    /// Number of bytes that one value takes.
    spec fn size_spec() -> nat;

    /// The value that the bytes stand for.
    spec fn from_bytes_spec(bytes: Seq<u8>) -> Self;

    fn size() -> (r: usize)
        ensures
            r == Self::size_spec(),
    ;

    fn from_bytes(bytes: &[u8]) -> (r: Self)
        requires
            bytes@.len() == Self::size_spec(),
        ensures
            r == Self::from_bytes_spec(bytes@),
    ;
}

/// A type without padding or hidden state, so that it can be copied out
/// byte for byte.
pub trait WritableToBytes {
    /// The bytes that stand for the value.
    spec fn bytes_spec(&self) -> Seq<u8>;

    fn to_bytes(&self) -> (r: Vec<u8>)
        ensures
            r@ == self.bytes_spec(),
    ;
}

impl ReadableFromBytes for u8 {
    open spec fn size_spec() -> nat {
        1
    }

    open spec fn from_bytes_spec(bytes: Seq<u8>) -> u8 {
        bytes[0]
    }

    fn size() -> (r: usize) {
        1
    }

    fn from_bytes(bytes: &[u8]) -> (r: u8) {
        bytes[0]
    }
}

impl ReadableFromBytes for u32 {
    open spec fn size_spec() -> nat {
        4
    }

    open spec fn from_bytes_spec(bytes: Seq<u8>) -> u32 {
        spec_u32_from_le_bytes(bytes)
    }

    fn size() -> (r: usize) {
        4
    }

    fn from_bytes(bytes: &[u8]) -> (r: u32) {
        u32_from_le_bytes(bytes)
    }
}

impl ReadableFromBytes for u64 {
    open spec fn size_spec() -> nat {
        8
    }

    open spec fn from_bytes_spec(bytes: Seq<u8>) -> u64 {
        spec_u64_from_le_bytes(bytes)
    }

    fn size() -> (r: usize) {
        8
    }

    fn from_bytes(bytes: &[u8]) -> (r: u64) {
        u64_from_le_bytes(bytes)
    }
}

impl WritableToBytes for u8 {
    open spec fn bytes_spec(&self) -> Seq<u8> {
        seq![*self]
    }

    fn to_bytes(&self) -> (r: Vec<u8>) {
        let mut v: Vec<u8> = Vec::new();
        v.push(*self);
        assert(v@ =~= seq![*self]);
        v
    }
}

impl WritableToBytes for u32 {
    open spec fn bytes_spec(&self) -> Seq<u8> {
        spec_u32_to_le_bytes(*self)
    }

    fn to_bytes(&self) -> (r: Vec<u8>) {
        u32_to_le_bytes(*self)
    }
}

impl WritableToBytes for u64 {
    open spec fn bytes_spec(&self) -> Seq<u8> {
        spec_u64_to_le_bytes(*self)
    }

    fn to_bytes(&self) -> (r: Vec<u8>) {
        u64_to_le_bytes(*self)
    }
}

/// The chunks of bytes that a list of byte vectors stands for.
pub open spec fn chunk_views(chunks: Seq<Vec<u8>>) -> Seq<Seq<u8>> {
    Seq::new(chunks.len(), |i: int| chunks[i]@)
}

/// A block of user memory.
pub struct UserSlicePtr {
    pub data: Vec<u8>,
}

/// Reads a block of user memory front to back.
pub struct UserSlicePtrReader {
    pub data: Vec<u8>,
    /// Number of bytes already read or skipped.
    pub pos: usize,
}

/// Fills a block of user memory front to back.
pub struct UserSlicePtrWriter {
    /// What has been written.
    pub data: Vec<u8>,
    /// Size of the block.
    pub limit: usize,
}

impl UserSlicePtr {
    pub fn new(data: Vec<u8>) -> (r: Self)
        ensures
            r.data == data,
    {
        UserSlicePtr { data }
    }

    /// Reads the whole block.
    pub fn read_all(self) -> (r: Vec<u8>)
        ensures
            r == self.data,
    {
        self.data
    }

    /// A reader over the block.
    pub fn reader(self) -> (r: UserSlicePtrReader)
        ensures
            r.wf(),
            r.data == self.data,
            r.pos == 0,
    {
        UserSlicePtrReader { data: self.data, pos: 0 }
    }

    /// A reader and a writer over the same block: the reader sees what is
    /// in the block now, the writer fills it anew.
    pub fn reader_writer(self) -> (r: (UserSlicePtrReader, UserSlicePtrWriter))
        ensures
            r.0.wf(),
            r.0.data == self.data,
            r.0.pos == 0,
            r.1.wf(),
            r.1.data@.len() == 0,
            r.1.limit == self.data@.len(),
    {
        let limit: usize = self.data.len();
        (
            UserSlicePtrReader { data: self.data, pos: 0 },
            UserSlicePtrWriter { data: Vec::new(), limit },
        )
    }

    /// A writer over the block; it starts empty and can take as many bytes
    /// as the block has.
    pub fn writer(self) -> (r: UserSlicePtrWriter)
        ensures
            r.wf(),
            r.data@.len() == 0,
            r.limit == self.data@.len(),
    {
        UserSlicePtrWriter { data: Vec::new(), limit: self.data.len() }
    }
}

impl UserSlicePtrReader {
    pub open spec fn wf(&self) -> bool {
        self.pos <= self.data@.len()
    }

    /// The bytes not yet read.
    pub open spec fn remaining(&self) -> Seq<u8> {
        self.data@.subrange(self.pos as int, self.data@.len() as int)
    }

    /// Skips `num_skip` bytes. Fails with `Fault`, and skips nothing, when
    /// fewer are left.
    pub fn skip(&mut self, num_skip: usize) -> (r: Result<(), BinderError>)
        requires
            old(self).wf(),
        ensures
            final(self).wf(),
            final(self).data == old(self).data,
            num_skip <= old(self).remaining().len() ==> r.is_ok() && final(self).pos == old(
                self).pos + num_skip,
            num_skip > old(self).remaining().len() ==> r == Err::<(), BinderError>(
                BinderError::Fault,
            ) && final(self).pos == old(self).pos,
    {
        if num_skip > self.data.len() - self.pos {
            return Err(BinderError::Fault);
        }
        self.pos = self.pos + num_skip;
        Ok(())
    }

    /// Number of bytes left to read.
    pub fn len(&self) -> (r: usize)
        requires
            self.wf(),
        ensures
            r == self.remaining().len(),
    {
        self.data.len() - self.pos
    }

    /// Whether nothing is left to read.
    pub fn is_empty(&self) -> (r: bool)
        requires
            self.wf(),
        ensures
            r == (self.remaining().len() == 0),
    {
        self.data.len() - self.pos == 0
    }

    /// Reads one value. Fails with `Fault`, and reads nothing, when fewer
    /// bytes are left than the value takes.
    pub fn read<T: ReadableFromBytes>(&mut self) -> (r: Result<T, BinderError>)
        requires
            old(self).wf(),
        ensures
            final(self).wf(),
            final(self).data == old(self).data,
            T::size_spec() <= old(self).remaining().len() ==> r == Ok::<T, BinderError>(
                T::from_bytes_spec(old(self).remaining().subrange(0, T::size_spec() as int)),
            ) && final(self).pos == old(self).pos + T::size_spec(),
            T::size_spec() > old(self).remaining().len() ==> r == Err::<T, BinderError>(
                BinderError::Fault,
            ) && final(self).pos == old(self).pos,
    {
        let n: usize = T::size();
        if n > self.data.len() - self.pos {
            return Err(BinderError::Fault);
        }
        let bytes = slice_subrange(self.data.as_slice(), self.pos, self.pos + n);
        proof {
            assert(bytes@ =~= self.remaining().subrange(0, n as int));
        }
        let value = T::from_bytes(bytes);
        self.pos = self.pos + n;
        Ok(value)
    }

    /// Reads `n` bytes. Fails with `Fault`, and reads nothing, when fewer are left.
    pub fn read_slice(&mut self, n: usize) -> (r: Result<Vec<u8>, BinderError>)
        requires
            old(self).wf(),
        ensures
            final(self).wf(),
            final(self).data == old(self).data,
            n <= old(self).remaining().len() ==> r.is_ok() && r.unwrap()@ == old(
                self).remaining().subrange(0, n as int) && final(self).pos == old(self).pos + n,
            n > old(self).remaining().len() ==> r == Err::<Vec<u8>, BinderError>(
                BinderError::Fault,
            ) && final(self).pos == old(self).pos,
    {
        if n > self.data.len() - self.pos {
            return Err(BinderError::Fault);
        }
        let mut out: Vec<u8> = Vec::new();
        let start: usize = self.pos;
        let mut i: usize = 0;
        while i < n
            invariant
                i <= n,
                start + n <= self.data@.len(),
                self.data@.len() <= usize::MAX,
                self.data == old(self).data,
                self.pos == start + i,
                start == old(self).pos,
                out@ == self.data@.subrange(start as int, start + i),
            decreases n - i,
        {
            out.push(self.data[self.pos]);
            self.pos = self.pos + 1;
            i = i + 1;
            proof {
                assert(out@ =~= self.data@.subrange(start as int, start + i));
            }
        }
        proof {
            assert(out@ =~= old(self).remaining().subrange(0, n as int));
        }
        Ok(out)
    }

    /// Reads everything that is left.
    pub fn read_all(&mut self) -> (r: Vec<u8>)
        requires
            old(self).wf(),
        ensures
            final(self).wf(),
            final(self).data == old(self).data,
            final(self).pos == old(self).data@.len(),
            r@ == old(self).remaining(),
    {
        let mut out: Vec<u8> = Vec::new();
        let start: usize = self.pos;
        while self.pos < self.data.len()
            invariant
                start <= self.pos <= self.data@.len(),
                self.data == old(self).data,
                out@ == self.data@.subrange(start as int, self.pos as int),
            decreases self.data@.len() - self.pos,
        {
            out.push(self.data[self.pos]);
            self.pos = self.pos + 1;
            proof {
                assert(out@ =~= self.data@.subrange(start as int, self.pos as int));
            }
        }
        out
    }
}

/// A writer as a mathematical value.
pub struct WriterView {
    pub data: Seq<u8>,
    pub limit: usize,
}

impl View for UserSlicePtrWriter {
    type V = WriterView;

    open spec fn view(&self) -> WriterView {
        WriterView { data: self.data@, limit: self.limit }
    }
}

impl WriterView {
    /// Whether `n` more bytes fit.
    pub open spec fn fits(self, n: int) -> bool {
        self.data.len() + n <= self.limit
    }

    /// The writer after `bytes` were written: appended if they fit, else unchanged.
    pub open spec fn put(self, bytes: Seq<u8>) -> WriterView {
        if self.fits(bytes.len() as int) {
            WriterView { data: self.data + bytes, ..self }
        } else {
            self
        }
    }

    /// The writer after the chunks were written one after the other, up to
    /// the first that does not fit.
    pub open spec fn put_all(self, chunks: Seq<Seq<u8>>) -> WriterView
        decreases chunks.len(),
    {
        if chunks.len() == 0 || !self.fits(chunks[0].len() as int) {
            self
        } else {
            self.put(chunks[0]).put_all(chunks.drop_first())
        }
    }

    /// Whether all the chunks fit, written one after the other.
    pub open spec fn fits_all(self, chunks: Seq<Seq<u8>>) -> bool
        decreases chunks.len(),
    {
        if chunks.len() == 0 {
            true
        } else {
            self.fits(chunks[0].len() as int) && self.put(chunks[0]).fits_all(chunks.drop_first())
        }
    }
}

impl UserSlicePtrWriter {
    pub open spec fn wf(&self) -> bool {
        self.data@.len() <= self.limit
    }

    /// Writes the chunks one after the other and stops with `Fault` at the
    /// first that does not fit.
    pub fn write_all(&mut self, chunks: &Vec<Vec<u8>>) -> (r: Result<(), BinderError>)
        requires
            old(self).wf(),
        ensures
            final(self).wf(),
            final(self)@ == old(self)@.put_all(chunk_views(chunks@)),
            r.is_ok() == old(self)@.fits_all(chunk_views(chunks@)),
            r.is_err() ==> r == Err::<(), BinderError>(BinderError::Fault),
    {
        let mut i: usize = 0;
        let ghost all = chunk_views(chunks@);
        proof {
            assert(all.subrange(0, all.len() as int) =~= all);
        }
        while i < chunks.len()
            invariant
                i <= chunks@.len(),
                self.wf(),
                all == chunk_views(chunks@),
                self@.put_all(all.subrange(i as int, all.len() as int)) == old(self)@.put_all(all),
                self@.fits_all(all.subrange(i as int, all.len() as int)) == old(self)@.fits_all(all),
            decreases chunks@.len() - i,
        {
            proof {
                let rest = all.subrange(i as int, all.len() as int);
                assert(rest[0] == chunks@[i as int]@);
                assert(rest.drop_first() =~= all.subrange(i + 1, all.len() as int));
            }
            match self.write_slice(chunks[i].as_slice()) {
                Ok(()) => {},
                Err(e) => {
                    return Err(e);
                },
            }
            i = i + 1;
        }
        Ok(())
    }

    /// A writer over a block of `limit` bytes.
    pub fn new(limit: usize) -> (r: Self)
        ensures
            r.wf(),
            r.data@.len() == 0,
            r.limit == limit,
    {
        UserSlicePtrWriter { data: Vec::new(), limit }
    }

    /// Number of bytes that still fit.
    pub open spec fn room(&self) -> int {
        self.limit - self.data@.len()
    }

    /// Number of bytes that still fit.
    pub fn len(&self) -> (r: usize)
        requires
            self.wf(),
        ensures
            r == self.room(),
    {
        self.limit - self.data.len()
    }

    /// Whether nothing more fits.
    pub fn is_empty(&self) -> (r: bool)
        requires
            self.wf(),
        ensures
            r == (self.room() == 0),
    {
        self.limit - self.data.len() == 0
    }

    /// Appends the bytes. Fails with `Fault`, and writes nothing, when they
    /// do not fit.
    pub fn write_slice(&mut self, bytes: &[u8]) -> (r: Result<(), BinderError>)
        requires
            old(self).wf(),
        ensures
            final(self).wf(),
            final(self).limit == old(self).limit,
            bytes@.len() <= old(self).room() ==> r.is_ok() && final(self).data@ == old(
                self).data@ + bytes@,
            bytes@.len() > old(self).room() ==> r == Err::<(), BinderError>(BinderError::Fault)
                && final(self).data@ == old(self).data@,
    {
        if bytes.len() > self.limit - self.data.len() {
            return Err(BinderError::Fault);
        }
        let mut i: usize = 0;
        while i < bytes.len()
            invariant
                i <= bytes@.len(),
                self.limit == old(self).limit,
                old(self).data@.len() + bytes@.len() <= self.limit,
                self.data@ == old(self).data@ + bytes@.subrange(0, i as int),
            decreases bytes@.len() - i,
        {
            self.data.push(bytes[i]);
            i = i + 1;
            proof {
                assert(self.data@ =~= old(self).data@ + bytes@.subrange(0, i as int));
            }
        }
        proof {
            assert(bytes@.subrange(0, bytes@.len() as int) =~= bytes@);
        }
        Ok(())
    }

    /// Appends one value. Fails with `Fault`, and writes nothing, when it
    /// does not fit.
    pub fn write<T: WritableToBytes>(&mut self, value: &T) -> (r: Result<(), BinderError>)
        requires
            old(self).wf(),
        ensures
            final(self).wf(),
            final(self).limit == old(self).limit,
            value.bytes_spec().len() <= old(self).room() ==> r.is_ok() && final(self).data@ == old(
                self).data@ + value.bytes_spec(),
            value.bytes_spec().len() > old(self).room() ==> r == Err::<(), BinderError>(
                BinderError::Fault,
            ) && final(self).data@ == old(self).data@,
    {
        let bytes: Vec<u8> = value.to_bytes();
        self.write_slice(bytes.as_slice())
    }
}

} // verus!

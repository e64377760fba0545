//! IO vectors that act as a source of data: a cursor over bytes that the
//! holder does not own for longer than the vector lives.

use vstd::prelude::*;

verus! {

/// An IO vector that acts as a source of data.
pub struct IovIterSource {
    pub data: Vec<u8>,
    /// Number of bytes already consumed.
    pub pos: usize,
}

impl IovIterSource {
    pub open spec fn wf(&self) -> bool {
        self.pos <= self.data@.len()
    }

    /// The bytes that are left.
    pub open spec fn remaining(&self) -> Seq<u8> {
        self.data@.subrange(self.pos as int, self.data@.len() as int)
    }

    /// An IO vector over `data`, with nothing consumed.
    pub fn new(data: Vec<u8>) -> (r: Self)
        ensures
            r.wf(),
            r.data == data,
            r.pos == 0,
    {
        IovIterSource { data, pos: 0 }
    }

    /// Returns the number of bytes available in this IO vector.
    pub fn len(&self) -> (r: usize)
        requires
            self.wf(),
        ensures
            r == self.remaining().len(),
    {
        self.data.len() - self.pos
    }

    /// Returns whether there are any bytes left in this IO vector.
    pub fn is_empty(&self) -> (r: bool)
        requires
            self.wf(),
        ensures
            r == (self.remaining().len() == 0),
    {
        self.len() == 0
    }

    /// Advances this IO vector by `bytes` bytes, or to its end if it has fewer.
    pub fn advance(&mut self, bytes: usize)
        requires
            old(self).wf(),
        ensures
            final(self).wf(),
            final(self).data == old(self).data,
            final(self).pos == (if bytes <= old(self).remaining().len() {
                old(self).pos + bytes
            } else {
                old(self).data@.len() as int
            }),
    {
        if bytes > self.data.len() - self.pos {
            self.pos = self.data.len();
        } else {
            self.pos = self.pos + bytes;
        }
    }

    /// Moves this IO vector backwards by `bytes` bytes. It must not be
    /// moved to before its beginning.
    pub fn revert(&mut self, bytes: usize)
        requires
            old(self).wf(),
            bytes <= old(self).pos,
        ensures
            final(self).wf(),
            final(self).data == old(self).data,
            final(self).pos == old(self).pos - bytes,
    {
        self.pos = self.pos - bytes;
    }

    /// Reads up to `max` bytes from this IO vector and appends them to
    /// `out`. Returns the number of bytes that have been copied.
    pub fn copy_from_iter(&mut self, out: &mut Vec<u8>, max: usize) -> (n: usize)
        requires
            old(self).wf(),
        ensures
            final(self).wf(),
            final(self).data == old(self).data,
            n == (if max <= old(self).remaining().len() {
                max as int
            } else {
                old(self).remaining().len() as int
            }),
            final(self).pos == old(self).pos + n,
            final(out)@ == old(out)@ + old(self).remaining().subrange(0, n as int),
    {
        let avail: usize = self.data.len() - self.pos;
        let n: usize = if max <= avail { max } else { avail };
        let start: usize = self.pos;
        let mut i: usize = 0;
        while i < n
            invariant
                i <= n,
                start + n <= self.data@.len(),
                self.data@.len() <= usize::MAX,
                self.data == old(self).data,
                self.pos == start + i,
                start == old(self).pos,
                out@ == old(out)@ + old(self).remaining().subrange(0, i as int),
            decreases n - i,
        {
            out.push(self.data[self.pos]);
            self.pos = self.pos + 1;
            i = i + 1;
            proof {
                assert(out@ =~= old(out)@ + old(self).remaining().subrange(0, i as int));
            }
        }
        proof {
            assert(old(out)@ + old(self).remaining().subrange(0, 0) =~= old(out)@);
        }
        n
    }

    /// Reads everything that is left in this IO vector and appends it to
    /// `out`. Returns the number of bytes that have been copied.
    pub fn copy_from_iter_vec(&mut self, out: &mut Vec<u8>) -> (n: usize)
        requires
            old(self).wf(),
        ensures
            final(self).wf(),
            final(self).data == old(self).data,
            n == old(self).remaining().len(),
            final(self).pos == old(self).data@.len(),
            final(out)@ == old(out)@ + old(self).remaining(),
    {
        let avail: usize = self.data.len() - self.pos;
        proof {
            assert(old(self).remaining().subrange(0, avail as int) =~= old(self).remaining());
        }
        self.copy_from_iter(out, avail)
    }
}

} // verus!

//! Miscellaneous character devices: the options a device is registered
//! with, and what a read on an open device works on.

use vstd::prelude::*;

verus! {

/// The minor number that asks for one to be assigned.
pub const MISC_DYNAMIC_MINOR: i32 = 255;

/// Options for creating a misc device.
pub struct MiscDeviceOptions {
    /// The name of the miscdevice.
    pub name: Vec<u8>,
}

/// A misc device as it is handed over for registration.
pub struct RawMiscDevice {
    pub minor: i32,
    pub name: Vec<u8>,
}

impl MiscDeviceOptions {
    /// Creates the device record ready for registration: it has the name
    /// from the options and asks for a minor number to be assigned.
    pub fn into_raw(self) -> (r: RawMiscDevice)
        ensures
            r.minor == MISC_DYNAMIC_MINOR,
            r.name == self.name,
    {
        RawMiscDevice { minor: MISC_DYNAMIC_MINOR, name: self.name }
    }
}

/// The state of one read or write on an open file: the position in the file.
pub struct Kiocb {
    pub ki_pos: i64,
}

impl Kiocb {
    /// Gets the current value of `ki_pos`.
    pub fn ki_pos(&self) -> (r: i64)
        ensures
            r == self.ki_pos,
    {
        self.ki_pos
    }

    /// Gets a mutable reference to the `ki_pos` field.
    pub fn ki_pos_mut(&mut self) -> (r: &mut i64)
        ensures
            *r == old(self).ki_pos,
            final(self).ki_pos == *final(r),
    {
        &mut self.ki_pos
    }
}

/// An IO vector that acts as a destination of data: a buffer of fixed size
/// that is filled front to back.
pub struct IovIter {
    pub data: Vec<u8>,
    pub limit: usize,
}

impl IovIter {
    pub open spec fn wf(&self) -> bool {
        self.data@.len() <= self.limit
    }

    /// An empty IO vector with room for `limit` bytes.
    pub fn new(limit: usize) -> (r: Self)
        ensures
            r.wf(),
            r.data@ == Seq::<u8>::empty(),
            r.limit == limit,
    {
        IovIter { data: Vec::new(), limit }
    }

    /// Number of bytes that still fit.
    pub fn len(&self) -> (r: usize)
        requires
            self.wf(),
        ensures
            r == self.limit - self.data@.len(),
    {
        self.limit - self.data.len()
    }

    /// Copies as much of `src` as fits and returns the number of bytes copied.
    pub fn copy_to_iter(&mut self, src: &[u8]) -> (n: usize)
        requires
            old(self).wf(),
        ensures
            final(self).wf(),
            final(self).limit == old(self).limit,
            n == (if src@.len() <= old(self).limit - old(self).data@.len() {
                src@.len() as int
            } else {
                old(self).limit - old(self).data@.len()
            }),
            final(self).data@ == old(self).data@ + src@.subrange(0, n as int),
    {
        let room: usize = self.limit - self.data.len();
        let n: usize = if src.len() <= room { src.len() } else { room };
        let mut i: usize = 0;
        proof {
            assert(old(self).data@ + src@.subrange(0, 0) =~= old(self).data@);
        }
        while i < n
            invariant
                i <= n,
                n <= src@.len(),
                self.limit == old(self).limit,
                old(self).data@.len() + n <= self.limit,
                self.data@ == old(self).data@ + src@.subrange(0, i as int),
            decreases n - i,
        {
            self.data.push(src[i]);
            i = i + 1;
            proof {
                assert(self.data@ =~= old(self).data@ + src@.subrange(0, i as int));
            }
        }
        n
    }
}

} // verus!

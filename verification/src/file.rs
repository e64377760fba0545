//! File descriptors as the engine sees them: numbers reserved in the
//! recipient of a transaction, to be bound to a file once delivery cannot
//! fail any more.

use vstd::prelude::*;
use crate::defs::BinderError;

verus! {

/// The one error of operations that can only fail because a descriptor
/// does not name an open file.
#[derive(Clone, Copy, Debug, PartialEq, Eq, Structural)]
pub struct BadFdError;

impl BadFdError {
    /// The engine's error kind for a bad descriptor.
    pub fn to_error(self) -> (r: BinderError)
        ensures
            r == BinderError::BadFd,
    {
        BinderError::BadFd
    }
}

/// A slot reserved in a task's descriptor table. It is either committed,
/// which binds it to a file, or given back.
#[derive(Debug, PartialEq, Eq)]
pub struct FileDescriptorReservation {
    pub fd: u32,
}

impl FileDescriptorReservation {
    /// Wraps what the descriptor table answered to a reservation request: a
    /// descriptor number, or a negative errno.
    pub fn new(raw: i32) -> (r: Result<Self, i32>)
        ensures
            raw >= 0 ==> r == Ok::<Self, i32>(FileDescriptorReservation { fd: raw as u32 }),
            raw < 0 ==> r == Err::<Self, i32>(raw),
    {
        if raw < 0 {
            Err(raw)
        } else {
            Ok(FileDescriptorReservation { fd: raw as u32 })
        }
    }

    /// The descriptor number that was reserved.
    pub fn reserved_fd(&self) -> (r: u32)
        ensures
            r == self.fd,
    {
        self.fd
    }

    /// Uses the reservation up: returns the descriptor number and the file
    /// to bind to it.
    pub fn commit(self, file: u64) -> (r: (u32, u64))
        ensures
            r == (self.fd, file),
    {
        (self.fd, file)
    }
}

} // verus!

//! Requests for interrupt lines and what a handler answers.

use vstd::prelude::*;

verus! {

/// The value that a handler returns for an interrupt that was not its own.
pub const IRQ_NONE: u32 = 0;

/// The value that a handler returns for an interrupt that it handled.
pub const IRQ_HANDLED: u32 = 1;

/// The value that a handler returns to have its thread woken.
pub const IRQ_WAKE_THREAD: u32 = 2;

/// What a handler answers.
#[derive(Clone, Copy, Debug, PartialEq, Eq, Structural)]
pub enum IrqReturn {
    /// The interrupt was not from this device or was not handled.
    Unhandled,
    /// The interrupt was handled by this device.
    Handled,
}

/// What the first half of a threaded handler answers.
#[derive(Clone, Copy, Debug, PartialEq, Eq, Structural)]
pub enum ThreadedIrqReturn {
    /// The interrupt was not from this device or was not handled.
    Unhandled,
    /// The interrupt was handled by this device.
    Handled,
    /// The handler wants its thread to be woken.
    WakeThread,
}

impl IrqReturn {
    /// The number that stands for the answer.
    pub fn into_inner(self) -> (r: u32)
        ensures
            r == (match self {
                IrqReturn::Unhandled => IRQ_NONE,
                IrqReturn::Handled => IRQ_HANDLED,
            }),
    {
        match self {
            IrqReturn::Unhandled => IRQ_NONE,
            IrqReturn::Handled => IRQ_HANDLED,
        }
    }
}

impl ThreadedIrqReturn {
    /// The number that stands for the answer.
    pub fn into_inner(self) -> (r: u32)
        ensures
            r == (match self {
                ThreadedIrqReturn::Unhandled => IRQ_NONE,
                ThreadedIrqReturn::Handled => IRQ_HANDLED,
                ThreadedIrqReturn::WakeThread => IRQ_WAKE_THREAD,
            }),
    {
        match self {
            ThreadedIrqReturn::Unhandled => IRQ_NONE,
            ThreadedIrqReturn::Handled => IRQ_HANDLED,
            ThreadedIrqReturn::WakeThread => IRQ_WAKE_THREAD,
        }
    }
}

/// A request for an interrupt line that has not been registered yet.
#[derive(Clone, Copy, Debug, PartialEq, Eq, Structural)]
pub struct IrqRequest {
    pub irq: u32,
}

impl IrqRequest {
    /// A request for the interrupt line with this number.
    pub fn new(irq: u32) -> (r: Self)
        ensures
            r.irq == irq,
    {
        IrqRequest { irq }
    }

    /// Returns the IRQ number of the request.
    pub fn irq(&self) -> (r: u32)
        ensures
            r == self.irq,
    {
        self.irq
    }
}

} // verus!

//! The commands that userspace writes to the engine: how they are decoded
//! from the write buffer, and what each does.

use vstd::prelude::*;
use vstd::bytes::{spec_u32_from_le_bytes, spec_u64_from_le_bytes, u32_from_le_bytes, u64_from_le_bytes};
use vstd::slice::slice_subrange;
use crate::binder::{Binder, BinderView};
use crate::defs::{
    BinderError, ProcId, ThreadId, BC_ACQUIRE, BC_ACQUIRE_DONE, BC_CLEAR_DEATH_NOTIFICATION,
    BC_DEAD_BINDER_DONE, BC_DECREFS, BC_ENTER_LOOPER, BC_EXIT_LOOPER, BC_FREE_BUFFER, BC_INCREFS,
    BC_INCREFS_DONE, BC_REGISTER_LOOPER, BC_RELEASE, BC_REPLY, BC_REPLY_SG,
    BC_REQUEST_DEATH_NOTIFICATION, BC_TRANSACTION, BC_TRANSACTION_SG,
};
use crate::thread::ThreadView;
use crate::user_ptr::UserSlicePtrReader;

verus! {

/// The header of a transaction as userspace writes it. The payload itself
/// stays in user memory, at the addresses that the header gives.
#[derive(Clone, Copy, Debug, PartialEq, Eq, Structural)]
pub struct TransactionHeader {
    /// The handle of the target in its low 32 bits.
    pub target: u64,
    pub cookie: u64,
    pub code: u32,
    pub flags: u32,
    pub sender_pid: u32,
    pub sender_euid: u32,
    pub data_size: u64,
    pub offsets_size: u64,
    /// Address of the data in user memory.
    pub buffer: u64,
    /// Address of the list of offsets in user memory.
    pub offsets: u64,
    /// Size of the scatter-gather buffers; zero for the plain commands.
    pub buffers_size: u64,
}

/// A command from the write buffer.
#[derive(Clone, Copy, Debug, PartialEq, Eq, Structural)]
pub enum Command {
    Transaction(TransactionHeader),
    Reply(TransactionHeader),
    FreeBuffer(u64),
    IncRefs(u32),
    Acquire(u32),
    Release(u32),
    DecRefs(u32),
    IncRefsDone { ptr: u64, cookie: u64 },
    AcquireDone { ptr: u64, cookie: u64 },
    RegisterLooper,
    EnterLooper,
    ExitLooper,
    RequestDeathNotification { handle: u32, cookie: u64 },
    ClearDeathNotification { handle: u32, cookie: u64 },
    DeadBinderDone(u64),
}

/// The 32-bit number at `at`.
pub open spec fn u32_at(b: Seq<u8>, at: int) -> u32 {
    spec_u32_from_le_bytes(b.subrange(at, at + 4))
}

/// The 64-bit number at `at`.
pub open spec fn u64_at(b: Seq<u8>, at: int) -> u64 {
    spec_u64_from_le_bytes(b.subrange(at, at + 8))
}

/// Number of bytes that follow the opcode of a command; `None` for an
/// opcode that the engine does not know.
pub open spec fn payload_size(op: u32) -> Option<int> {
    if op == BC_TRANSACTION || op == BC_REPLY {
        Some(64)
    } else if op == BC_TRANSACTION_SG || op == BC_REPLY_SG {
        Some(72)
    } else if op == BC_FREE_BUFFER || op == BC_DEAD_BINDER_DONE {
        Some(8)
    } else if op == BC_INCREFS || op == BC_ACQUIRE || op == BC_RELEASE || op == BC_DECREFS {
        Some(4)
    } else if op == BC_INCREFS_DONE || op == BC_ACQUIRE_DONE {
        Some(16)
    } else if op == BC_REGISTER_LOOPER || op == BC_ENTER_LOOPER || op == BC_EXIT_LOOPER {
        Some(0)
    } else if op == BC_REQUEST_DEATH_NOTIFICATION || op == BC_CLEAR_DEATH_NOTIFICATION {
        Some(12)
    } else {
        None
    }
}

/// The transaction header that a payload of 64 or 72 bytes stands for.
pub open spec fn header_of(payload: Seq<u8>) -> TransactionHeader {
    TransactionHeader {
        target: u64_at(payload, 0),
        cookie: u64_at(payload, 8),
        code: u32_at(payload, 16),
        flags: u32_at(payload, 20),
        sender_pid: u32_at(payload, 24),
        sender_euid: u32_at(payload, 28),
        data_size: u64_at(payload, 32),
        offsets_size: u64_at(payload, 40),
        buffer: u64_at(payload, 48),
        offsets: u64_at(payload, 56),
        buffers_size: if payload.len() >= 72 {
            u64_at(payload, 64)
        } else {
            0
        },
    }
}

/// The command that a known opcode and its payload stand for.
pub open spec fn command_of(op: u32, payload: Seq<u8>) -> Command {
    if op == BC_TRANSACTION || op == BC_TRANSACTION_SG {
        Command::Transaction(header_of(payload))
    } else if op == BC_REPLY || op == BC_REPLY_SG {
        Command::Reply(header_of(payload))
    } else if op == BC_FREE_BUFFER {
        Command::FreeBuffer(u64_at(payload, 0))
    } else if op == BC_DEAD_BINDER_DONE {
        Command::DeadBinderDone(u64_at(payload, 0))
    } else if op == BC_INCREFS {
        Command::IncRefs(u32_at(payload, 0))
    } else if op == BC_ACQUIRE {
        Command::Acquire(u32_at(payload, 0))
    } else if op == BC_RELEASE {
        Command::Release(u32_at(payload, 0))
    } else if op == BC_DECREFS {
        Command::DecRefs(u32_at(payload, 0))
    } else if op == BC_INCREFS_DONE {
        Command::IncRefsDone { ptr: u64_at(payload, 0), cookie: u64_at(payload, 8) }
    } else if op == BC_ACQUIRE_DONE {
        Command::AcquireDone { ptr: u64_at(payload, 0), cookie: u64_at(payload, 8) }
    } else if op == BC_REGISTER_LOOPER {
        Command::RegisterLooper
    } else if op == BC_ENTER_LOOPER {
        Command::EnterLooper
    } else if op == BC_EXIT_LOOPER {
        Command::ExitLooper
    } else if op == BC_REQUEST_DEATH_NOTIFICATION {
        Command::RequestDeathNotification { handle: u32_at(payload, 0), cookie: u64_at(payload, 4) }
    } else {
        Command::ClearDeathNotification { handle: u32_at(payload, 0), cookie: u64_at(payload, 4) }
    }
}

/// The first command of a write buffer: `Fault` when the buffer ends
/// inside the command, `BadArg` for an opcode that the engine does not know.
pub open spec fn decode_command(b: Seq<u8>) -> Result<Command, BinderError> {
    if b.len() < 4 {
        Err(BinderError::Fault)
    } else {
        match payload_size(u32_at(b, 0)) {
            None => Err(BinderError::BadArg),
            Some(n) => if b.len() < 4 + n {
                Err(BinderError::Fault)
            } else {
                Ok(command_of(u32_at(b, 0), b.subrange(4, 4 + n)))
            },
        }
    }
}

/// Number of bytes that decoding the first command of a write buffer
/// consumes: the whole command, only the opcode when the command is
/// unknown or cut short, nothing when even the opcode is cut short.
pub open spec fn decode_consumed(b: Seq<u8>) -> int {
    if b.len() < 4 {
        0
    } else {
        match payload_size(u32_at(b, 0)) {
            None => 4,
            Some(n) => if b.len() < 4 + n {
                4
            } else {
                4 + n
            },
        }
    }
}

fn get_u32(b: &[u8], at: usize) -> (r: u32)
    requires
        at + 4 <= b@.len(),
        at <= 72,
    ensures
        r == u32_at(b@, at as int),
{
    u32_from_le_bytes(slice_subrange(b, at, at + 4))
}

fn get_u64(b: &[u8], at: usize) -> (r: u64)
    requires
        at + 8 <= b@.len(),
        at <= 72,
    ensures
        r == u64_at(b@, at as int),
{
    u64_from_le_bytes(slice_subrange(b, at, at + 8))
}

fn get_header(b: &[u8]) -> (r: TransactionHeader)
    requires
        b@.len() == 64 || b@.len() == 72,
    ensures
        r == header_of(b@),
{
    TransactionHeader {
        target: get_u64(b, 0),
        cookie: get_u64(b, 8),
        code: get_u32(b, 16),
        flags: get_u32(b, 20),
        sender_pid: get_u32(b, 24),
        sender_euid: get_u32(b, 28),
        data_size: get_u64(b, 32),
        offsets_size: get_u64(b, 40),
        buffer: get_u64(b, 48),
        offsets: get_u64(b, 56),
        buffers_size: if b.len() >= 72 { get_u64(b, 64) } else { 0 },
    }
}

/// Size of the payload of a command.
fn get_payload_size(op: u32) -> (r: Option<usize>)
    ensures
        r.is_some() == payload_size(op).is_some(),
        r.is_some() ==> r.unwrap() == payload_size(op).unwrap(),
{
    if op == BC_TRANSACTION || op == BC_REPLY {
        Some(64)
    } else if op == BC_TRANSACTION_SG || op == BC_REPLY_SG {
        Some(72)
    } else if op == BC_FREE_BUFFER || op == BC_DEAD_BINDER_DONE {
        Some(8)
    } else if op == BC_INCREFS || op == BC_ACQUIRE || op == BC_RELEASE || op == BC_DECREFS {
        Some(4)
    } else if op == BC_INCREFS_DONE || op == BC_ACQUIRE_DONE {
        Some(16)
    } else if op == BC_REGISTER_LOOPER || op == BC_ENTER_LOOPER || op == BC_EXIT_LOOPER {
        Some(0)
    } else if op == BC_REQUEST_DEATH_NOTIFICATION || op == BC_CLEAR_DEATH_NOTIFICATION {
        Some(12)
    } else {
        None
    }
}

/// Reads the next command from the write buffer.
pub fn read_command(reader: &mut UserSlicePtrReader) -> (r: Result<Command, BinderError>)
    requires
        old(reader).wf(),
    ensures
        final(reader).wf(),
        final(reader).data == old(reader).data,
        r == decode_command(old(reader).remaining()),
        final(reader).pos == old(reader).pos + decode_consumed(old(reader).remaining()),
{
    let ghost b = reader.remaining();
    let opb: Vec<u8> = match reader.read_slice(4) {
        Ok(v) => v,
        Err(e) => {
            return Err(e);
        },
    };
    let op: u32 = u32_from_le_bytes(opb.as_slice());
    let n: usize = match get_payload_size(op) {
        Some(n) => n,
        None => {
            return Err(BinderError::BadArg);
        },
    };
    let ghost rest = reader.remaining();
    proof {
        assert(rest =~= b.subrange(4, b.len() as int));
    }
    let payload: Vec<u8> = match reader.read_slice(n) {
        Ok(v) => v,
        Err(e) => {
            return Err(e);
        },
    };
    proof {
        assert(payload@ =~= b.subrange(4, 4 + n));
    }
    let p: &[u8] = payload.as_slice();
    let cmd: Command = if op == BC_TRANSACTION || op == BC_TRANSACTION_SG {
        Command::Transaction(get_header(p))
    } else if op == BC_REPLY || op == BC_REPLY_SG {
        Command::Reply(get_header(p))
    } else if op == BC_FREE_BUFFER {
        Command::FreeBuffer(get_u64(p, 0))
    } else if op == BC_DEAD_BINDER_DONE {
        Command::DeadBinderDone(get_u64(p, 0))
    } else if op == BC_INCREFS {
        Command::IncRefs(get_u32(p, 0))
    } else if op == BC_ACQUIRE {
        Command::Acquire(get_u32(p, 0))
    } else if op == BC_RELEASE {
        Command::Release(get_u32(p, 0))
    } else if op == BC_DECREFS {
        Command::DecRefs(get_u32(p, 0))
    } else if op == BC_INCREFS_DONE {
        Command::IncRefsDone { ptr: get_u64(p, 0), cookie: get_u64(p, 8) }
    } else if op == BC_ACQUIRE_DONE {
        Command::AcquireDone { ptr: get_u64(p, 0), cookie: get_u64(p, 8) }
    } else if op == BC_REGISTER_LOOPER {
        Command::RegisterLooper
    } else if op == BC_ENTER_LOOPER {
        Command::EnterLooper
    } else if op == BC_EXIT_LOOPER {
        Command::ExitLooper
    } else if op == BC_REQUEST_DEATH_NOTIFICATION {
        Command::RequestDeathNotification { handle: get_u32(p, 0), cookie: get_u64(p, 4) }
    } else {
        Command::ClearDeathNotification { handle: get_u32(p, 0), cookie: get_u64(p, 4) }
    };
    Ok(cmd)
}

impl BinderView {
    /// What a command without payload in user memory answers.
    pub open spec fn execute_result(self, th: int, cmd: Command) -> Result<(), BinderError> {
        let p = self.threads[th].process as int;
        match cmd {
            Command::Transaction(_) => Err(BinderError::BadArg),
            Command::Reply(_) => Err(BinderError::BadArg),
            Command::IncRefs(h) => self.update_ref_result(p, h, true, false),
            Command::Acquire(h) => self.update_ref_result(p, h, true, true),
            Command::Release(h) => self.update_ref_result(p, h, false, true),
            Command::DecRefs(h) => self.update_ref_result(p, h, false, false),
            Command::RequestDeathNotification { handle, cookie } => self.request_death_result(
                p,
                handle,
                true,
            ),
            Command::ClearDeathNotification { handle, cookie } => self.clear_death_result(
                p,
                handle,
                cookie as usize,
            ),
            _ => Ok(()),
        }
    }

    /// The engine after a command without payload in user memory was
    /// carried out for thread `th`. The commands that carry a transaction
    /// change nothing here: their payload must be fetched first.
    pub open spec fn execute(self, th: int, cmd: Command) -> BinderView {
        let p = self.threads[th].process as int;
        match cmd {
            Command::Transaction(_) => self,
            Command::Reply(_) => self,
            Command::FreeBuffer(ptr) => self.free_buffer(p, ptr as usize),
            Command::IncRefs(h) => self.update_ref(p, h, true, false),
            Command::Acquire(h) => self.update_ref(p, h, true, true),
            Command::Release(h) => self.update_ref(p, h, false, true),
            Command::DecRefs(h) => self.update_ref(p, h, false, false),
            Command::IncRefsDone { ptr, cookie } => self.inc_ref_done(
                p,
                ptr as usize,
                cookie as usize,
            ),
            Command::AcquireDone { ptr, cookie } => self.inc_ref_done(
                p,
                ptr as usize,
                cookie as usize,
            ),
            Command::RegisterLooper => self.looper_register(th),
            Command::EnterLooper => self.with_thread(
                th,
                ThreadView { looper: self.threads[th].looper.entered_spec(), ..self.threads[th] },
            ),
            Command::ExitLooper => self.with_thread(
                th,
                ThreadView { looper: self.threads[th].looper.exited_spec(), ..self.threads[th] },
            ),
            Command::RequestDeathNotification { handle, cookie } => self.request_death(
                p,
                handle,
                cookie as usize,
                th,
                true,
            ),
            Command::ClearDeathNotification { handle, cookie } => self.clear_death(
                p,
                handle,
                cookie as usize,
                th,
            ),
            Command::DeadBinderDone(cookie) => self.dead_binder_done(p, cookie as usize, th),
        }
    }
}

impl Binder {
    /// Carries out a command of thread `th` that has no payload in user
    /// memory. For the commands that carry a transaction it fails with
    /// `BadArg`: their payload must be fetched first. A death request is
    /// carried out as with memory reserved for it; a caller for whom the
    /// reservation can fail makes it and calls `request_death`.
    pub fn execute(&mut self, th: ThreadId, cmd: Command) -> (r: Result<(), BinderError>)
        requires
            old(self)@.wf(),
            th < old(self)@.threads.len(),
        ensures
            final(self)@ == old(self)@.execute(th as int, cmd),
            r == old(self)@.execute_result(th as int, cmd),
            final(self)@.wf(),
            final(self)@.extends(old(self)@),
            old(self)@.lens().le(final(self)@.lens()),
            final(self)@.procs.len() == old(self)@.procs.len(),
            final(self)@.threads.len() == old(self)@.threads.len(),
    {
        assert(self@.threads[th as int].valid(self@.lens()));
        let p: ProcId = self.threads[th].process;
        match cmd {
            Command::Transaction(_) => Err(BinderError::BadArg),
            Command::Reply(_) => Err(BinderError::BadArg),
            Command::FreeBuffer(ptr) => {
                self.free_buffer(p, ptr as usize);
                Ok(())
            },
            Command::IncRefs(h) => self.update_ref(p, h, true, false),
            Command::Acquire(h) => self.update_ref(p, h, true, true),
            Command::Release(h) => self.update_ref(p, h, false, true),
            Command::DecRefs(h) => self.update_ref(p, h, false, false),
            Command::IncRefsDone { ptr, cookie } => {
                self.inc_ref_done(p, ptr as usize, cookie as usize, false);
                Ok(())
            },
            Command::AcquireDone { ptr, cookie } => {
                self.inc_ref_done(p, ptr as usize, cookie as usize, true);
                Ok(())
            },
            Command::RegisterLooper => {
                self.looper_register(th);
                Ok(())
            },
            Command::EnterLooper => {
                self.looper_enter(th);
                Ok(())
            },
            Command::ExitLooper => {
                self.looper_exit(th);
                Ok(())
            },
            Command::RequestDeathNotification { handle, cookie } => self.request_death(
                p,
                handle,
                cookie as usize,
                th,
                true,
            ),
            Command::ClearDeathNotification { handle, cookie } => self.clear_death(
                p,
                handle,
                cookie as usize,
                th,
            ),
            Command::DeadBinderDone(cookie) => {
                self.dead_binder_done(p, cookie as usize, th);
                Ok(())
            },
        }
    }
}

} // verus!

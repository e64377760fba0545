//! A sequential, verified core of a Binder-style IPC engine.
//!
//! Objects that the engine shares between processes (nodes, threads,
//! transactions, death subscriptions) live in arenas owned by [`binder::Binder`]
//! and are named by stable indices. Every per-object state machine is a small
//! type with an exact contract; the arena composes them, and its contracts
//! are stated over [`binder::BinderView`], the engine as a mathematical value.

pub mod defs;
pub mod lists;
pub mod user_ptr;
pub mod file;
pub mod iov;
pub mod irq;
pub mod of;
pub mod miscdevice;
pub mod range_alloc;
pub mod node;
pub mod node_refs;
pub mod thread;
pub mod context;
pub mod transaction;
pub mod process;
pub mod binder;
pub mod work;
pub mod refs;
pub mod death;
pub mod buffer;
pub mod objects;
pub mod transact;
pub mod send;
pub mod deliver;
pub mod dispatch;
pub mod lifecycle;
pub mod release;
pub mod invariants;
pub mod commands;
pub mod ioctl;

use rust_binder::binder::Binder;
use rust_binder::commands::Command;
use rust_binder::defs::{
    BinderError, WorkItem, BR_ACQUIRE, BR_CLEAR_DEATH_NOTIFICATION_DONE, BR_DEAD_BINDER,
    BR_DEAD_REPLY, BR_DECREFS, BR_FAILED_REPLY, BR_INCREFS, BR_NOOP, BR_RELEASE, BR_REPLY,
    BR_SPAWN_LOOPER, BR_TRANSACTION, BR_TRANSACTION_COMPLETE, FLAT_BINDER_FLAG_ACCEPTS_FDS,
    TF_ACCEPT_FDS, TF_ONE_WAY,
};
use rust_binder::dispatch::READ_ROOM;
use rust_binder::objects::{
    FlatBinderObject, BINDER_TYPE_BINDER, BINDER_TYPE_FD, BINDER_TYPE_HANDLE,
};
use rust_binder::range_alloc::SlotState;
use rust_binder::send::BinderTransactionData;
use rust_binder::user_ptr::UserSlicePtrWriter;

const ARENA_A: usize = 0x10_0000;
const ARENA_B: usize = 0x20_0000;
const ARENA_SIZE: usize = 0x4000;

/// One return command as a reader sees it.
#[derive(Debug, PartialEq, Eq, Clone)]
enum Br {
    Code(u32),
    Node { code: u32, ptr: u64, cookie: u64 },
    Death { code: u32, cookie: u64 },
    Txn { code: u32, target: u64, cookie: u64, tcode: u32, flags: u32, pid: u32, euid: u32, data_size: u64, offsets_size: u64, buffer: u64, offsets: u64 },
}

fn u32_at(b: &[u8], at: usize) -> u32 {
    u32::from_le_bytes([b[at], b[at + 1], b[at + 2], b[at + 3]])
}

fn u64_at(b: &[u8], at: usize) -> u64 {
    let mut x = [0u8; 8];
    x.copy_from_slice(&b[at..at + 8]);
    u64::from_le_bytes(x)
}

fn parse(b: &[u8]) -> Vec<Br> {
    let mut out = Vec::new();
    let mut at = 0;
    while at < b.len() {
        let code = u32_at(b, at);
        at += 4;
        if code == BR_INCREFS || code == BR_ACQUIRE || code == BR_RELEASE || code == BR_DECREFS {
            out.push(Br::Node { code, ptr: u64_at(b, at), cookie: u64_at(b, at + 8) });
            at += 16;
        } else if code == BR_DEAD_BINDER || code == BR_CLEAR_DEATH_NOTIFICATION_DONE {
            out.push(Br::Death { code, cookie: u64_at(b, at) });
            at += 8;
        } else if code == BR_TRANSACTION || code == BR_REPLY {
            out.push(Br::Txn {
                code,
                target: u64_at(b, at),
                cookie: u64_at(b, at + 8),
                tcode: u32_at(b, at + 16),
                flags: u32_at(b, at + 20),
                pid: u32_at(b, at + 24),
                euid: u32_at(b, at + 28),
                data_size: u64_at(b, at + 32),
                offsets_size: u64_at(b, at + 40),
                buffer: u64_at(b, at + 48),
                offsets: u64_at(b, at + 56),
            });
            at += 64;
        } else {
            out.push(Br::Code(code));
        }
    }
    out
}

/// One read of a thread into a buffer of `size` bytes.
fn read_sized(b: &mut Binder, th: usize, size: usize) -> Vec<Br> {
    let mut w = UserSlicePtrWriter::new(size);
    b.read_begin(th, &mut w, true).unwrap();
    while w.len() >= READ_ROOM {
        let item = match b.thread_get_work(th) {
            Some(item) => item,
            None => break,
        };
        let fds: Option<Vec<u32>> = match item {
            WorkItem::Transaction(t) => {
                let n = b.txn_file_count(t);
                Some((0..n).map(|i| 100 + i as u32).collect())
            }
            _ => None,
        };
        let (r, _installs) = b.do_work(item, th, &mut w, &fds);
        if r.unwrap() {
            break;
        }
    }
    b.read_end(th, &mut w, true);
    parse(&w.data)
}

fn read(b: &mut Binder, th: usize) -> Vec<Br> {
    read_sized(b, th, 1024)
}

fn plain(handle: u32, code: u32, flags: u32, data: &[u8]) -> BinderTransactionData {
    BinderTransactionData {
        target_handle: handle,
        code,
        flags,
        data: data.to_vec(),
        offsets: Vec::new(),
        secctx: Vec::new(),
    }
}

fn with_object(handle: u32, code: u32, flags: u32, obj: FlatBinderObject) -> BinderTransactionData {
    BinderTransactionData {
        target_handle: handle,
        code,
        flags,
        data: obj.encode(),
        offsets: vec![0],
        secctx: Vec::new(),
    }
}

struct World {
    b: Binder,
    pa: usize,
    ta: usize,
    pb: usize,
    tb: usize,
}

/// P_A is the manager of context "binder" with node (0xAA, 0xBB); P_B has
/// imported the manager under handle 0. Both have an arena. P_A has been
/// told of the counts on its node and has acknowledged them.
fn world(manager_flags: u32) -> World {
    let mut w = fresh_world(manager_flags);
    assert_eq!(
        read(&mut w.b, w.ta),
        vec![
            Br::Code(BR_NOOP),
            Br::Node { code: BR_INCREFS, ptr: 0xAA, cookie: 0xBB },
            Br::Node { code: BR_ACQUIRE, ptr: 0xAA, cookie: 0xBB },
        ]
    );
    w.b.execute(w.ta, Command::IncRefsDone { ptr: 0xAA, cookie: 0xBB }).unwrap();
    w.b.execute(w.ta, Command::AcquireDone { ptr: 0xAA, cookie: 0xBB }).unwrap();
    assert_eq!(read(&mut w.b, w.tb), vec![Br::Code(BR_NOOP)]);
    w
}

/// As `world`, before P_A has read anything.
fn fresh_world(manager_flags: u32) -> World {
    let mut b = Binder::new();
    assert!(b.find_context(&b"binder".to_vec()).is_none());
    let ctx = b.create_context(b"binder".to_vec());
    let pa = b.open(ctx, 100, 1000);
    let ta = b.get_current_thread(pa, 100);
    b.mmap(pa, 100, ARENA_A, ARENA_A + ARENA_SIZE, false).unwrap();
    let node = FlatBinderObject {
        ty: BINDER_TYPE_BINDER,
        flags: manager_flags,
        value: 0xAA,
        cookie: 0xBB,
    };
    b.set_as_manager(pa, Some(node), 1000, None).unwrap();
    b.looper_enter(ta);
    let pb = b.open(ctx, 200, 1001);
    let tb = b.get_current_thread(pb, 200);
    b.mmap(pb, 200, ARENA_B, ARENA_B + ARENA_SIZE, false).unwrap();
    b.update_ref(pb, 0, true, true).unwrap();
    b.looper_enter(tb);
    World { b, pa, ta, pb, tb }
}

fn payload(b: &Binder, p: usize, arena: usize, txn: &Br) -> Vec<u8> {
    match txn {
        Br::Txn { buffer, data_size, .. } => {
            b.buffer_read(p, *buffer as usize - arena, *data_size as usize).unwrap()
        }
        other => panic!("not a transaction: {:?}", other),
    }
}

fn buffer_of(txn: &Br) -> u64 {
    match txn {
        Br::Txn { buffer, .. } => *buffer,
        other => panic!("not a transaction: {:?}", other),
    }
}

fn all_free(b: &Binder, p: usize) -> bool {
    let m = b.procs[p].inner.mapping.as_ref().unwrap();
    m.alloc.slots.len() == 1 && m.alloc.slots[0].state == SlotState::Free
}

#[test]
fn publish_and_call() {
    let mut w = fresh_world(0);
    // The import of the manager gave P_B handle 0.
    assert_eq!(w.b.procs[w.pb].node_refs.entries.len(), 1);
    assert_eq!(w.b.procs[w.pb].node_refs.entries[0].handle, 0);

    w.b.thread_transaction(w.tb, &plain(0, 42, 0, b"hi\0"), &Vec::new()).unwrap();
    // The call sits on top of the sender's stack.
    assert!(w.b.threads[w.tb].current_transaction.is_some());

    // The owner hears of the acquisition of its node before the call.
    let got = read(&mut w.b, w.ta);
    assert_eq!(
        got[..3].to_vec(),
        vec![
            Br::Code(BR_NOOP),
            Br::Node { code: BR_INCREFS, ptr: 0xAA, cookie: 0xBB },
            Br::Node { code: BR_ACQUIRE, ptr: 0xAA, cookie: 0xBB },
        ]
    );
    let got: Vec<Br> = vec![got[0].clone(), got[3].clone()];
    assert_eq!(got.len(), 2);
    match &got[1] {
        Br::Txn { code, target, cookie, tcode, pid, euid, data_size, offsets_size, offsets, .. } => {
            assert_eq!(*code, BR_TRANSACTION);
            assert_eq!((*target, *cookie), (0xAA, 0xBB));
            assert_eq!(*tcode, 42);
            assert_eq!(*pid, 200);
            assert_eq!(*euid, 1001);
            assert_eq!(*data_size, 3);
            assert_eq!((*offsets_size, *offsets), (0, 0));
        }
        other => panic!("unexpected {:?}", other),
    }
    assert_eq!(payload(&w.b, w.pa, ARENA_A, &got[1]), b"hi\0".to_vec());
    let call_buffer = buffer_of(&got[1]);
    // The call is the current frame of the reader.
    assert_eq!(w.b.threads[w.ta].current_transaction, w.b.threads[w.tb].current_transaction);

    w.b.thread_reply(w.ta, &plain(0, 0, 0, b"ok"), &Vec::new()).unwrap();
    assert_eq!(w.b.threads[w.ta].current_transaction, None);
    assert_eq!(w.b.threads[w.tb].current_transaction, None);

    let got = read(&mut w.b, w.tb);
    assert_eq!(got.len(), 3);
    assert_eq!(got[0], Br::Code(BR_NOOP));
    assert_eq!(got[1], Br::Code(BR_TRANSACTION_COMPLETE));
    match &got[2] {
        Br::Txn { code, target, data_size, pid, .. } => {
            assert_eq!(*code, BR_REPLY);
            assert_eq!(*target, 0);
            assert_eq!(*data_size, 2);
            assert_eq!(*pid, 0);
        }
        other => panic!("unexpected {:?}", other),
    }
    assert_eq!(payload(&w.b, w.pb, ARENA_B, &got[2]), b"ok".to_vec());
    // The replier hears that its reply is on its way.
    assert_eq!(read(&mut w.b, w.ta), vec![Br::Code(BR_NOOP), Br::Code(BR_TRANSACTION_COMPLETE)]);

    // Freeing the buffers gives the arenas back whole.
    let reply_buffer = buffer_of(&got[2]);
    w.b.execute(w.tb, Command::FreeBuffer(reply_buffer)).unwrap();
    assert!(all_free(&w.b, w.pb));
    assert!(!all_free(&w.b, w.pa));
    w.b.execute(w.ta, Command::FreeBuffer(call_buffer)).unwrap();
    assert!(all_free(&w.b, w.pa));
}

#[test]
fn manager_node_is_released_when_the_last_reference_goes() {
    let mut w = world(0);
    let n = w.b.contexts[0].manager.node.as_ref().unwrap().node;
    assert!(w.b.nodes[n].inner.strong.has_count);
    assert!(w.b.nodes[n].inner.weak.has_count);
    assert_eq!(w.b.nodes[n].inner.active_inc_refs, 0);
    assert_eq!(w.b.nodes[n].inner.strong.count, 2);
    // P_B gives its handle up and the manager slot is emptied.
    w.b.execute(w.tb, Command::Release(0)).unwrap();
    assert_eq!(read(&mut w.b, w.ta), vec![Br::Code(BR_NOOP)]);
    w.b.unset_manager_node(0);
    assert_eq!(
        read(&mut w.b, w.ta),
        vec![
            Br::Code(BR_NOOP),
            Br::Node { code: BR_RELEASE, ptr: 0xAA, cookie: 0xBB },
            Br::Node { code: BR_DECREFS, ptr: 0xAA, cookie: 0xBB },
        ]
    );
    assert!(w.b.procs[w.pa].inner.nodes.is_empty());
}

#[test]
fn exported_node_is_acquired_then_released() {
    let mut w = world(0);
    // P_B passes one of its objects to P_A in a reply-less way: a call
    // to the manager that carries a strong reference.
    let obj = FlatBinderObject { ty: BINDER_TYPE_BINDER, flags: 0, value: 0x51, cookie: 0x52 };
    w.b.thread_transaction(w.tb, &with_object(0, 7, 0, obj), &Vec::new()).unwrap();
    // P_A got a handle for it, the lowest one that is free.
    assert_eq!(w.b.procs[w.pa].node_refs.entries.len(), 1);
    assert_eq!(w.b.procs[w.pa].node_refs.entries[0].handle, 1);

    let got = read(&mut w.b, w.ta);
    let rewritten = FlatBinderObject::decode(&payload(&w.b, w.pa, ARENA_A, &got[1]));
    assert_eq!(rewritten, FlatBinderObject { ty: BINDER_TYPE_HANDLE, flags: 0, value: 1, cookie: 0 });
    w.b.thread_reply(w.ta, &plain(0, 0, 0, b""), &Vec::new()).unwrap();

    // The owner is told of both counts, weak first, before anything else.
    let got = read(&mut w.b, w.tb);
    assert_eq!(
        got[..4].to_vec(),
        vec![
            Br::Code(BR_NOOP),
            Br::Node { code: BR_INCREFS, ptr: 0x51, cookie: 0x52 },
            Br::Node { code: BR_ACQUIRE, ptr: 0x51, cookie: 0x52 },
            Br::Code(BR_TRANSACTION_COMPLETE),
        ]
    );
    let node = w.b.procs[w.pb].inner.nodes[0];
    assert_eq!(w.b.nodes[node].inner.active_inc_refs, 2);

    // P_A drops its only reference while the acquisitions are unacknowledged.
    w.b.execute(w.ta, Command::Release(1)).unwrap();
    assert!(w.b.procs[w.pa].node_refs.entries.is_empty());
    assert_eq!(read(&mut w.b, w.tb), vec![Br::Code(BR_NOOP)]);
    w.b.execute(w.tb, Command::IncRefsDone { ptr: 0x51, cookie: 0x52 }).unwrap();
    assert_eq!(read(&mut w.b, w.tb), vec![Br::Code(BR_NOOP)]);
    w.b.execute(w.tb, Command::AcquireDone { ptr: 0x51, cookie: 0x52 }).unwrap();
    // Now the drop goes out: strong before weak, and the node is gone.
    assert_eq!(
        read(&mut w.b, w.tb),
        vec![
            Br::Code(BR_NOOP),
            Br::Node { code: BR_RELEASE, ptr: 0x51, cookie: 0x52 },
            Br::Node { code: BR_DECREFS, ptr: 0x51, cookie: 0x52 },
        ]
    );
    assert!(w.b.procs[w.pb].inner.nodes.is_empty());
    assert_eq!(w.b.nodes[node].inner.active_inc_refs, 0);
}

#[test]
fn oneway_ordering() {
    let mut w = world(0);
    for code in [1u32, 2, 3] {
        w.b.thread_transaction(w.tb, &plain(0, code, TF_ONE_WAY, &[code as u8]), &Vec::new())
            .unwrap();
    }
    // A one-way transaction does not sit on the sender's stack.
    assert_eq!(w.b.threads[w.tb].current_transaction, None);
    let n = w.b.contexts[0].manager.node.as_ref().unwrap().node;
    assert!(w.b.nodes[n].inner.has_pending_oneway_todo);
    assert_eq!(w.b.nodes[n].inner.oneway_todo.len(), 2);

    let mut seen = Vec::new();
    for round in 0..3 {
        let got = read(&mut w.b, w.ta);
        assert_eq!(got.len(), 2, "round {}", round);
        match &got[1] {
            Br::Txn { code, tcode, flags, pid, .. } => {
                assert_eq!(*code, BR_TRANSACTION);
                assert_eq!(*flags, TF_ONE_WAY);
                assert_eq!(*pid, 0);
                seen.push(*tcode);
            }
            other => panic!("unexpected {:?}", other),
        }
        // Until the buffer is freed nothing else comes.
        assert_eq!(read(&mut w.b, w.ta), vec![Br::Code(BR_NOOP)]);
        w.b.execute(w.ta, Command::FreeBuffer(buffer_of(&got[1]))).unwrap();
    }
    assert_eq!(seen, vec![1, 2, 3]);
    assert!(!w.b.nodes[n].inner.has_pending_oneway_todo);
    assert!(all_free(&w.b, w.pa));
    // The sender heard three times that its transaction is on its way.
    assert_eq!(
        read(&mut w.b, w.tb),
        vec![
            Br::Code(BR_NOOP),
            Br::Code(BR_TRANSACTION_COMPLETE),
            Br::Code(BR_TRANSACTION_COMPLETE),
            Br::Code(BR_TRANSACTION_COMPLETE),
        ]
    );
}

#[test]
fn oneway_on_a_transaction_stack_fails() {
    let mut w = world(0);
    let n = w.b.contexts[0].manager.node.as_ref().unwrap().node;
    let node_ref = w.b.new_node_ref(n, true, None);
    w.b.thread_transaction(w.tb, &plain(0, 1, 0, b"x"), &Vec::new()).unwrap();
    let top = w.b.threads[w.tb].current_transaction;
    assert!(top.is_some());
    let before = w.b.txns.len();
    let r = w.b.new_transaction(w.tb, node_ref, top, &plain(0, 2, TF_ONE_WAY, b"y"), &Vec::new());
    assert_eq!(r, Err(BinderError::Failed));
    assert_eq!(w.b.txns.len(), before);
}

#[test]
fn death_notification() {
    let mut w = world(0);
    w.b.request_death(w.pb, 0, 0xC0, w.tb, true).unwrap();
    // A second request for the same handle changes nothing.
    w.b.request_death(w.pb, 0, 0xC1, w.tb, true).unwrap();
    assert_eq!(w.b.deaths.len(), 1);
    assert_eq!(read(&mut w.b, w.tb), vec![Br::Code(BR_NOOP)]);

    // P_A is torn down.
    assert!(w.b.release(w.pa));
    w.b.run_deferred(w.pa);
    assert!(w.b.procs[w.pa].inner.is_dead);

    // Something else is queued behind the death notification.
    w.b.push_work(w.pb, WorkItem::Return(0x7777)).unwrap();
    let got = read(&mut w.b, w.tb);
    assert_eq!(got, vec![Br::Code(BR_NOOP), Br::Death { code: BR_DEAD_BINDER, cookie: 0xC0 }]);
    assert_eq!(w.b.procs[w.pb].inner.delivered_deaths, vec![0]);
    assert_eq!(read(&mut w.b, w.tb), vec![Br::Code(BR_NOOP), Br::Code(0x7777)]);

    // The subscriber ends the subscription and acknowledges the death.
    w.b.execute(w.tb, Command::ClearDeathNotification { handle: 0, cookie: 0xC0 }).unwrap();
    assert_eq!(read(&mut w.b, w.tb), vec![Br::Code(BR_NOOP)]);
    w.b.execute(w.tb, Command::DeadBinderDone(0xC0)).unwrap();
    assert!(w.b.procs[w.pb].inner.delivered_deaths.is_empty());
    assert_eq!(
        read(&mut w.b, w.tb),
        vec![Br::Code(BR_NOOP), Br::Death { code: BR_CLEAR_DEATH_NOTIFICATION_DONE, cookie: 0xC0 }]
    );
    let d = w.b.deaths[0].inner;
    assert!(d.dead && d.cleared && d.notification_done && !d.aborted);
}

#[test]
fn death_request_without_memory_reports_error_in_band() {
    let mut w = world(0);
    assert_eq!(w.b.request_death(w.pb, 0, 0xC0, w.tb, false), Err(BinderError::NoMem));
    assert!(w.b.deaths.is_empty());
    assert_eq!(read(&mut w.b, w.tb), vec![Br::Code(BR_NOOP), Br::Code(rust_binder::defs::BR_ERROR)]);
}

#[test]
fn death_request_errors() {
    let mut w = world(0);
    assert_eq!(w.b.request_death(w.pb, 9, 1, w.tb, true), Err(BinderError::BadArg));
    assert_eq!(w.b.clear_death(w.pb, 9, 1, w.tb), Err(BinderError::BadArg));
    assert_eq!(w.b.clear_death(w.pb, 0, 1, w.tb), Err(BinderError::BadArg));
    w.b.request_death(w.pb, 0, 0xC0, w.tb, true).unwrap();
    assert_eq!(w.b.clear_death(w.pb, 0, 0xC1, w.tb), Err(BinderError::BadArg));
    assert_eq!(w.b.procs[w.pb].node_refs.entries[0].info.death, Some(0));
}

#[test]
fn clearing_a_live_subscription_is_confirmed() {
    let mut w = world(0);
    w.b.request_death(w.pb, 0, 0xC0, w.tb, true).unwrap();
    let n = w.b.contexts[0].manager.node.as_ref().unwrap().node;
    assert_eq!(w.b.nodes[n].inner.death_list, vec![0]);
    w.b.clear_death(w.pb, 0, 0xC0, w.tb).unwrap();
    assert!(w.b.nodes[n].inner.death_list.is_empty());
    assert_eq!(
        read(&mut w.b, w.tb),
        vec![Br::Code(BR_NOOP), Br::Death { code: BR_CLEAR_DEATH_NOTIFICATION_DONE, cookie: 0xC0 }]
    );
}

#[test]
fn dropping_the_handle_aborts_the_subscription() {
    let mut w = world(0);
    w.b.request_death(w.pb, 0, 0xC0, w.tb, true).unwrap();
    w.b.update_ref(w.pb, 0, false, true).unwrap();
    assert!(w.b.procs[w.pb].node_refs.entries.is_empty());
    let d = w.b.deaths[0].inner;
    assert!(d.cleared && d.aborted);
    let n = w.b.contexts[0].manager.node.as_ref().unwrap().node;
    assert!(w.b.nodes[n].inner.death_list.is_empty());
    w.b.release(w.pa);
    w.b.run_deferred(w.pa);
    assert_eq!(read(&mut w.b, w.tb), vec![Br::Code(BR_NOOP)]);
}

#[test]
fn reentrant_call() {
    let mut w = world(0);
    // T1: P_B calls the manager in P_A and passes one of its own objects.
    let obj = FlatBinderObject { ty: BINDER_TYPE_BINDER, flags: 0, value: 0x51, cookie: 0x52 };
    w.b.thread_transaction(w.tb, &with_object(0, 1, 0, obj), &Vec::new()).unwrap();
    let t1 = w.b.threads[w.tb].current_transaction.unwrap();
    let got = read(&mut w.b, w.ta);
    assert_eq!(got.len(), 2);
    assert_eq!(w.b.threads[w.ta].current_transaction, Some(t1));

    // T2: while serving T1, P_A calls back into P_B through the handle it got.
    w.b.thread_transaction(w.ta, &plain(1, 2, 0, b"cb"), &Vec::new()).unwrap();
    let t2 = w.b.threads[w.ta].current_transaction.unwrap();
    assert_ne!(t1, t2);
    assert_eq!(w.b.txns[t2].stack_next, Some(t1));
    assert_eq!(w.b.find_target_thread(t2), Some(w.tb));
    // It went to the thread that waits for T1, not to the process queue.
    assert!(!w.b.procs[w.pb].inner.work.contains(&WorkItem::Transaction(t2)));
    assert!(w.b.threads[w.tb].work_list.contains(&WorkItem::Transaction(t2)));

    let got = read(&mut w.b, w.tb);
    match got.last().unwrap() {
        Br::Txn { code, target, cookie, tcode, .. } => {
            assert_eq!(*code, BR_TRANSACTION);
            assert_eq!((*target, *cookie), (0x51, 0x52));
            assert_eq!(*tcode, 2);
        }
        other => panic!("unexpected {:?}", other),
    }
    assert_eq!(w.b.threads[w.tb].current_transaction, Some(t2));

    // P_B replies to T2; its stack is back at T1, which it sent.
    w.b.thread_reply(w.tb, &plain(0, 0, 0, b"r2"), &Vec::new()).unwrap();
    assert_eq!(w.b.threads[w.tb].current_transaction, Some(t1));
    assert_eq!(w.b.threads[w.ta].current_transaction, Some(t1));
    let got = read(&mut w.b, w.ta);
    assert!(matches!(got.last().unwrap(), Br::Txn { code, .. } if *code == BR_REPLY));
    assert_eq!(payload(&w.b, w.pa, ARENA_A, got.last().unwrap()), b"r2".to_vec());

    // P_A replies to T1; both stacks are empty.
    w.b.thread_reply(w.ta, &plain(0, 0, 0, b"r1"), &Vec::new()).unwrap();
    assert_eq!(w.b.threads[w.ta].current_transaction, None);
    assert_eq!(w.b.threads[w.tb].current_transaction, None);
    let got = read(&mut w.b, w.tb);
    let replies: Vec<&Br> =
        got.iter().filter(|c| matches!(c, Br::Txn { code, .. } if *code == BR_REPLY)).collect();
    assert_eq!(replies.len(), 1);
    assert_eq!(payload(&w.b, w.pb, ARENA_B, replies[0]), b"r1".to_vec());
}

#[test]
fn failed_translation() {
    let mut w = world(0);
    let fd = FlatBinderObject { ty: BINDER_TYPE_FD, flags: 0, value: 5, cookie: 0 };
    let tr = with_object(0, 9, 0, fd);
    assert_eq!(rust_binder::send::transaction_fds(&tr), vec![Some(5)]);
    let r = w.b.thread_transaction(w.tb, &tr, &vec![Some(77)]);
    assert_eq!(r, Err(BinderError::Failed));
    assert_eq!(w.b.threads[w.tb].current_transaction, None);
    assert!(w.b.txns.is_empty());
    assert!(all_free(&w.b, w.pa));
    assert_eq!(read(&mut w.b, w.tb), vec![Br::Code(BR_NOOP), Br::Code(BR_FAILED_REPLY)]);
    assert_eq!(read(&mut w.b, w.ta), vec![Br::Code(BR_NOOP)]);
}

#[test]
fn file_descriptor_travels_to_a_node_that_accepts_files() {
    let mut w = world(FLAT_BINDER_FLAG_ACCEPTS_FDS);
    let fd = FlatBinderObject { ty: BINDER_TYPE_FD, flags: 0, value: 5, cookie: 0 };
    w.b.thread_transaction(w.tb, &with_object(0, 9, 0, fd), &vec![Some(77)]).unwrap();
    let t = w.b.threads[w.tb].current_transaction.unwrap();
    assert_eq!(w.b.txn_file_count(t), 1);

    let mut wr = UserSlicePtrWriter::new(256);
    let item = w.b.thread_get_work(w.ta).unwrap();
    assert_eq!(item, WorkItem::Transaction(t));
    let (r, installs) = w.b.do_work(item, w.ta, &mut wr, &Some(vec![33]));
    assert_eq!(r, Ok(true));
    assert_eq!(installs, vec![(33, 77)]);
    let got = parse(&wr.data);
    let bytes = payload(&w.b, w.pa, ARENA_A, &got[0]);
    // The descriptor number reserved in the recipient is in the payload.
    assert_eq!(u32_at(&bytes, 8), 33);
    assert_eq!(w.b.txn_file_count(t), 0);
}

#[test]
fn unresolved_file_descriptor_is_refused() {
    let mut w = world(FLAT_BINDER_FLAG_ACCEPTS_FDS);
    let fd = FlatBinderObject { ty: BINDER_TYPE_FD, flags: 0, value: 5, cookie: 0 };
    let r = w.b.thread_transaction(w.tb, &with_object(0, 9, 0, fd), &vec![None]);
    assert_eq!(r, Err(BinderError::BadFd));
    assert!(all_free(&w.b, w.pa));
}

#[test]
fn delivery_without_reserved_descriptors_fails_the_call() {
    let mut w = world(FLAT_BINDER_FLAG_ACCEPTS_FDS);
    let fd = FlatBinderObject { ty: BINDER_TYPE_FD, flags: 0, value: 5, cookie: 0 };
    w.b.thread_transaction(w.tb, &with_object(0, 9, 0, fd), &vec![Some(77)]).unwrap();
    let mut wr = UserSlicePtrWriter::new(256);
    let item = w.b.thread_get_work(w.ta).unwrap();
    let (r, installs) = w.b.do_work(item, w.ta, &mut wr, &None);
    assert_eq!(r, Ok(false));
    assert!(installs.is_empty());
    assert!(wr.data.is_empty());
    assert_eq!(w.b.threads[w.ta].current_transaction, None);
    assert!(all_free(&w.b, w.pa));
    // The sender is told that the call failed.
    assert_eq!(w.b.threads[w.tb].current_transaction, None);
    assert_eq!(
        read(&mut w.b, w.tb),
        vec![Br::Code(BR_NOOP), Br::Code(BR_TRANSACTION_COMPLETE), Br::Code(BR_FAILED_REPLY)]
    );
}

#[test]
fn delivery_into_a_full_buffer_fails_the_call() {
    let mut w = world(0);
    w.b.thread_transaction(w.tb, &plain(0, 1, 0, b"x"), &Vec::new()).unwrap();
    let mut wr = UserSlicePtrWriter::new(10);
    let item = w.b.thread_get_work(w.ta).unwrap();
    let (r, _) = w.b.do_work(item, w.ta, &mut wr, &None);
    assert_eq!(r, Err(BinderError::Fault));
    // The command fitted, the header did not.
    assert_eq!(wr.data.len(), 4);
    assert_eq!(w.b.threads[w.ta].current_transaction, None);
    assert_eq!(w.b.threads[w.tb].current_transaction, None);
    assert_eq!(
        read(&mut w.b, w.tb),
        vec![Br::Code(BR_NOOP), Br::Code(BR_TRANSACTION_COMPLETE), Br::Code(BR_FAILED_REPLY)]
    );
}

#[test]
fn manager_conflict() {
    let mut b = Binder::new();
    let ctx = b.create_context(b"binder".to_vec());
    let p1 = b.open(ctx, 1, 1000);
    b.set_as_manager(p1, None, 1000, None).unwrap();
    assert!(b.procs[p1].inner.is_manager);

    // A second manager is refused while the first is installed.
    let p2 = b.open(ctx, 2, 1001);
    assert_eq!(b.set_as_manager(p2, None, 1001, None), Err(BinderError::Busy));
    assert_eq!(b.set_as_manager(p2, None, 1000, None), Err(BinderError::Busy));
    assert_eq!(b.set_as_manager(p1, None, 1000, None), Err(BinderError::Busy));

    // The manager exits; the uid under which it became manager stays on record.
    b.release(p1);
    b.run_deferred(p1);
    assert!(b.contexts[ctx].manager.node.is_none());
    assert_eq!(b.contexts[ctx].manager.uid, Some(1000));
    assert_eq!(b.set_as_manager(p2, None, 1001, None), Err(BinderError::Perm));
    assert!(!b.procs[p2].inner.is_manager);
    // The refused reference was given up again.
    let n = b.procs[p2].inner.nodes[0];
    assert_eq!(b.nodes[n].inner.strong.count, 0);

    // The security hook decides before the uid does.
    assert_eq!(
        b.set_as_manager(p2, None, 1001, Some(BinderError::BadFd)),
        Err(BinderError::BadFd)
    );
    assert_eq!(b.set_as_manager(p2, None, 1000, None), Ok(()));
    assert!(b.procs[p2].inner.is_manager);
}

#[test]
fn manager_cannot_import_itself() {
    let mut w = world(0);
    assert_eq!(w.b.update_ref(w.pa, 0, true, true), Err(BinderError::BadArg));
    assert!(w.b.procs[w.pa].node_refs.entries.is_empty());
    let n = w.b.contexts[0].manager.node.as_ref().unwrap().node;
    // The manager slot and P_B's handle each hold one strong count.
    assert_eq!(w.b.nodes[n].inner.strong.count, 2);
}

#[test]
fn call_without_manager_gets_dead_reply() {
    let mut b = Binder::new();
    let ctx = b.create_context(b"binder".to_vec());
    let p = b.open(ctx, 1, 0);
    let t = b.get_current_thread(p, 1);
    assert_eq!(b.thread_transaction(t, &plain(0, 1, 0, b""), &Vec::new()), Err(BinderError::Dead));
    assert_eq!(read(&mut b, t), vec![Br::Code(BR_NOOP), Br::Code(BR_DEAD_REPLY)]);
}

#[test]
fn call_to_unknown_handle_gets_failed_reply() {
    let mut w = world(0);
    assert_eq!(
        w.b.thread_transaction(w.tb, &plain(5, 1, 0, b""), &Vec::new()),
        Err(BinderError::NoEnt)
    );
    assert_eq!(read(&mut w.b, w.tb), vec![Br::Code(BR_NOOP), Br::Code(BR_FAILED_REPLY)]);
}

#[test]
fn call_without_arena_gets_dead_reply() {
    let mut b = Binder::new();
    let ctx = b.create_context(b"binder".to_vec());
    let pa = b.open(ctx, 1, 0);
    b.set_as_manager(pa, None, 0, None).unwrap();
    let pb = b.open(ctx, 2, 0);
    let tb = b.get_current_thread(pb, 2);
    assert_eq!(b.thread_transaction(tb, &plain(0, 1, 0, b"x"), &Vec::new()), Err(BinderError::Dead));
    let n = b.contexts[ctx].manager.node.as_ref().unwrap().node;
    // Only the manager slot still holds the node.
    assert_eq!(b.nodes[n].inner.strong.count, 1);
}

#[test]
fn call_larger_than_arena_gets_failed_reply() {
    let mut w = world(0);
    let big = vec![0u8; ARENA_SIZE + 1];
    assert_eq!(
        w.b.thread_transaction(w.tb, &plain(0, 1, 0, &big), &Vec::new()),
        Err(BinderError::NoMem)
    );
    assert_eq!(read(&mut w.b, w.tb), vec![Br::Code(BR_NOOP), Br::Code(BR_FAILED_REPLY)]);
    assert!(all_free(&w.b, w.pa));
}

#[test]
fn reply_without_call_is_refused() {
    let mut w = world(0);
    assert_eq!(w.b.thread_reply(w.ta, &plain(0, 0, 0, b""), &Vec::new()), Err(BinderError::BadArg));
    assert_eq!(read(&mut w.b, w.ta), vec![Br::Code(BR_NOOP), Br::Code(BR_FAILED_REPLY)]);
    // A sender cannot reply to its own call.
    w.b.thread_transaction(w.tb, &plain(0, 1, 0, b"x"), &Vec::new()).unwrap();
    assert_eq!(w.b.thread_reply(w.tb, &plain(0, 0, 0, b""), &Vec::new()), Err(BinderError::BadArg));
    assert!(w.b.threads[w.tb].current_transaction.is_some());
}

#[test]
fn reply_that_cannot_be_built_fails_the_call() {
    let mut w = world(0);
    w.b.thread_transaction(w.tb, &plain(0, 1, 0, b"x"), &Vec::new()).unwrap();
    read(&mut w.b, w.ta);
    let big = vec![0u8; ARENA_SIZE + 1];
    assert_eq!(w.b.thread_reply(w.ta, &plain(0, 0, 0, &big), &Vec::new()), Err(BinderError::NoMem));
    assert_eq!(read(&mut w.b, w.ta), vec![Br::Code(BR_NOOP), Br::Code(BR_TRANSACTION_COMPLETE)]);
    assert_eq!(
        read(&mut w.b, w.tb),
        vec![Br::Code(BR_NOOP), Br::Code(BR_TRANSACTION_COMPLETE), Br::Code(BR_FAILED_REPLY)]
    );
    assert_eq!(w.b.threads[w.tb].current_transaction, None);
}

#[test]
fn reply_may_carry_files_only_if_the_call_allows() {
    let mut w = world(0);
    w.b.thread_transaction(w.tb, &plain(0, 1, 0, b"x"), &Vec::new()).unwrap();
    read(&mut w.b, w.ta);
    let fd = FlatBinderObject { ty: BINDER_TYPE_FD, flags: 0, value: 5, cookie: 0 };
    assert_eq!(
        w.b.thread_reply(w.ta, &with_object(0, 0, 0, fd), &vec![Some(1)]),
        Err(BinderError::Failed)
    );

    let mut w = world(0);
    w.b.thread_transaction(w.tb, &plain(0, 1, TF_ACCEPT_FDS, b"x"), &Vec::new()).unwrap();
    read(&mut w.b, w.ta);
    assert_eq!(w.b.thread_reply(w.ta, &with_object(0, 0, 0, fd), &vec![Some(1)]), Ok(()));
}

#[test]
fn calls_to_a_dead_process_get_dead_reply() {
    let mut w = world(0);
    // A call is queued in P_A, another is being served, when P_A goes away.
    w.b.thread_transaction(w.tb, &plain(0, 1, 0, b"x"), &Vec::new()).unwrap();
    w.b.release(w.pa);
    w.b.run_deferred(w.pa);
    assert!(all_free_or_gone(&w.b, w.pa));
    assert_eq!(w.b.threads[w.tb].current_transaction, None);
    assert_eq!(
        read(&mut w.b, w.tb),
        vec![Br::Code(BR_NOOP), Br::Code(BR_TRANSACTION_COMPLETE), Br::Code(BR_DEAD_REPLY)]
    );
    // The manager is gone with its process.
    assert_eq!(
        w.b.thread_transaction(w.tb, &plain(0, 1, 0, b"x"), &Vec::new()),
        Err(BinderError::Dead)
    );
}

fn all_free_or_gone(b: &Binder, p: usize) -> bool {
    b.procs[p].inner.mapping.is_none()
}

#[test]
fn deferred_release_tears_everything_down() {
    let mut w = world(0);
    w.b.request_death(w.pb, 0, 0xC0, w.tb, true).unwrap();
    for code in [1u32, 2] {
        w.b.thread_transaction(w.tb, &plain(0, code, TF_ONE_WAY, b"o"), &Vec::new()).unwrap();
    }
    let ctx = 0;
    assert_eq!(w.b.contexts[ctx].manager.all_procs, vec![w.pa, w.pb]);
    w.b.release(w.pa);
    w.b.run_deferred(w.pa);
    let pa = &w.b.procs[w.pa];
    assert!(pa.inner.is_dead);
    assert!(pa.inner.work.is_empty());
    assert!(pa.inner.mapping.is_none());
    assert!(pa.inner.threads.is_empty());
    assert!(pa.inner.nodes.is_empty());
    assert!(pa.node_refs.entries.is_empty());
    assert_eq!(pa.inner.defer_work, 0);
    assert!(w.b.threads[w.ta].is_dead);
    assert_eq!(w.b.contexts[ctx].manager.all_procs, vec![w.pb]);
    assert!(w.b.contexts[ctx].manager.node.is_none());
    for node in &w.b.nodes {
        assert!(node.inner.oneway_todo.is_empty());
        assert!(!node.inner.has_pending_oneway_todo);
        assert!(node.inner.death_list.is_empty());
    }
    for txn in &w.b.txns {
        assert!(!txn.free_allocation);
    }
    assert!(w.b.deaths[0].inner.dead);
    // Work for the dead process is refused.
    assert_eq!(w.b.push_work(w.pa, WorkItem::Return(1)), Err(BinderError::Dead));
}

#[test]
fn flush_tells_threads_to_return() {
    let mut w = world(0);
    read(&mut w.b, w.ta);
    assert!(!w.b.threads[w.ta].looper_need_return);
    assert!(w.b.flush(w.pa));
    // A second request before the first ran needs no new scheduling.
    assert!(!w.b.flush(w.pa));
    w.b.run_deferred(w.pa);
    assert!(w.b.threads[w.ta].looper_need_return);
    assert!(!w.b.procs[w.pa].inner.is_dead);
    assert_eq!(w.b.procs[w.pa].inner.defer_work, 0);
}

#[test]
fn thread_exit_cancels_its_work() {
    let mut w = world(0);
    w.b.thread_transaction(w.tb, &plain(0, 1, 0, b"x"), &Vec::new()).unwrap();
    read(&mut w.b, w.ta);
    assert!(w.b.threads[w.ta].current_transaction.is_some());
    w.b.remove_thread(w.pa, w.ta);
    assert!(w.b.threads[w.ta].is_dead);
    assert!(w.b.procs[w.pa].inner.threads.is_empty());
    assert_eq!(w.b.threads[w.ta].current_transaction, None);
    assert_eq!(w.b.threads[w.tb].current_transaction, None);
    assert_eq!(
        read(&mut w.b, w.tb),
        vec![Br::Code(BR_NOOP), Br::Code(BR_TRANSACTION_COMPLETE), Br::Code(BR_DEAD_REPLY)]
    );
    // The task's next call makes a new thread.
    assert_ne!(w.b.get_current_thread(w.pa, 100), w.ta);
}

#[test]
fn ready_thread_gets_work_directly() {
    let mut w = fresh_world(0);
    // A thread returns from its first read without waiting.
    read(&mut w.b, w.ta);
    assert!(w.b.procs[w.pa].inner.ready_threads.is_empty());
    // From then on a read that finds nothing leaves the thread waiting.
    read(&mut w.b, w.ta);
    assert_eq!(w.b.procs[w.pa].inner.ready_threads, vec![w.ta]);
    w.b.thread_transaction(w.tb, &plain(0, 5, 0, b"x"), &Vec::new()).unwrap();
    assert!(w.b.procs[w.pa].inner.ready_threads.is_empty());
    assert!(w.b.procs[w.pa].inner.work.is_empty());
    assert_eq!(w.b.threads[w.ta].work_list.len(), 1);
    let got = read(&mut w.b, w.ta);
    assert_eq!(got.len(), 2);
    assert!(matches!(got.last().unwrap(), Br::Txn { tcode: 5, .. }));
}

#[test]
fn thread_outside_the_pool_takes_no_process_work() {
    let mut b = Binder::new();
    let ctx = b.create_context(b"binder".to_vec());
    let p = b.open(ctx, 1, 0);
    let t = b.get_current_thread(p, 1);
    b.push_work(p, WorkItem::Return(0x1234)).unwrap();
    assert_eq!(read(&mut b, t), vec![Br::Code(BR_NOOP)]);
    assert!(b.procs[p].inner.ready_threads.is_empty());
    b.looper_enter(t);
    assert_eq!(read(&mut b, t), vec![Br::Code(BR_NOOP), Br::Code(0x1234)]);
}

#[test]
fn pool_asks_for_threads_up_to_its_limit() {
    let mut b = Binder::new();
    let ctx = b.create_context(b"binder".to_vec());
    let p = b.open(ctx, 1, 0);
    let t = b.get_current_thread(p, 1);
    b.looper_enter(t);
    b.set_max_threads(p, 1);
    b.push_work(p, WorkItem::Return(BR_NOOP)).unwrap();
    assert_eq!(read(&mut b, t), vec![Br::Code(BR_SPAWN_LOOPER), Br::Code(BR_NOOP)]);
    assert_eq!(b.procs[p].inner.requested_thread_count, 1);
    // One was asked for already: no second request.
    b.push_work(p, WorkItem::Return(BR_NOOP)).unwrap();
    assert_eq!(read(&mut b, t), vec![Br::Code(BR_NOOP), Br::Code(BR_NOOP)]);

    let t2 = b.get_current_thread(p, 2);
    b.execute(t2, Command::RegisterLooper).unwrap();
    assert!(b.threads[t2].looper.registered && !b.threads[t2].looper.invalid);
    assert_eq!(b.procs[p].inner.started_thread_count, 1);
    assert_eq!(b.procs[p].inner.requested_thread_count, 0);
    // The pool is full now.
    b.push_work(p, WorkItem::Return(BR_NOOP)).unwrap();
    assert_eq!(read(&mut b, t), vec![Br::Code(BR_NOOP), Br::Code(BR_NOOP)]);

    // A thread that registers unasked, or joins twice, is marked.
    let t3 = b.get_current_thread(p, 3);
    b.execute(t3, Command::RegisterLooper).unwrap();
    assert!(b.threads[t3].looper.invalid);
    b.execute(t, Command::RegisterLooper).unwrap();
    assert!(b.threads[t].looper.invalid);
    b.execute(t, Command::ExitLooper).unwrap();
    assert!(b.threads[t].looper.exited);
}

#[test]
fn small_read_buffer_fetches_no_work() {
    let mut w = world(0);
    w.b.thread_transaction(w.tb, &plain(0, 1, 0, b"x"), &Vec::new()).unwrap();
    assert_eq!(read_sized(&mut w.b, w.ta, READ_ROOM + 3), vec![Br::Code(BR_NOOP)]);
    assert_eq!(w.b.procs[w.pa].inner.work.len(), 1);
    assert_eq!(read_sized(&mut w.b, w.ta, READ_ROOM + 4).len(), 2);
}

#[test]
fn clear_buf_zeroes_the_payload_on_free() {
    let mut w = world(0);
    w.b.thread_transaction(
        w.tb,
        &plain(0, 1, rust_binder::defs::TF_CLEAR_BUF | TF_ONE_WAY, b"secret"),
        &Vec::new(),
    )
    .unwrap();
    let got = read(&mut w.b, w.ta);
    let buffer = buffer_of(&got[1]) as usize;
    assert_eq!(w.b.buffer_read(w.pa, buffer - ARENA_A, 6).unwrap(), b"secret".to_vec());
    w.b.free_buffer(w.pa, buffer);
    assert_eq!(w.b.buffer_read(w.pa, buffer - ARENA_A, 6).unwrap(), vec![0u8; 6]);
}

#[test]
fn security_context_travels_when_the_node_asks_for_it() {
    let mut w = world(rust_binder::defs::FLAT_BINDER_FLAG_TXN_SECURITY_CTX);
    let mut tr = plain(0, 1, 0, b"abc");
    tr.secctx = b"u:r:app:s0\0".to_vec();
    w.b.thread_transaction(w.tb, &tr, &Vec::new()).unwrap();
    let mut wr = UserSlicePtrWriter::new(256);
    let item = w.b.thread_get_work(w.ta).unwrap();
    let (r, _) = w.b.do_work(item, w.ta, &mut wr, &None);
    assert_eq!(r, Ok(true));
    assert_eq!(wr.data.len(), 4 + 72);
    assert_eq!(u32_at(&wr.data, 0), rust_binder::defs::BR_TRANSACTION_SEC_CTX);
    let buffer = u64_at(&wr.data, 4 + 48) as usize;
    let secctx = u64_at(&wr.data, 4 + 64) as usize;
    assert_eq!(secctx, buffer + 8);
    assert_eq!(w.b.buffer_read(w.pa, secctx - ARENA_A, 11).unwrap(), b"u:r:app:s0\0".to_vec());
}

/// Every transaction is in a queue of the process it was sent to, and on
/// top of a stack only of a thread that sent it or serves it.
fn assert_routed(b: &Binder) {
    for (t, thread) in b.threads.iter().enumerate() {
        if let Some(c) = thread.current_transaction {
            assert!(b.txns[c].from == t || b.txns[c].to == thread.process, "thread {}", t);
        }
        for item in thread.work_list.iter() {
            if let WorkItem::Transaction(c) = item {
                assert_eq!(b.txns[*c].to, thread.process);
            }
        }
    }
    for (p, process) in b.procs.iter().enumerate() {
        for item in process.inner.work.iter() {
            if let WorkItem::Transaction(c) = item {
                assert_eq!(b.txns[*c].to, p);
            }
        }
        for t in process.inner.ready_threads.iter() {
            assert_eq!(b.threads[*t].process, p);
        }
    }
    for node in b.nodes.iter() {
        assert!(node.inner.active_inc_refs <= 2);
        assert!(node.inner.oneway_todo.is_empty() || node.inner.has_pending_oneway_todo);
        for c in node.inner.oneway_todo.iter() {
            assert_eq!(b.txns[*c].to, node.owner);
        }
    }
    for death in b.deaths.iter() {
        assert!(!death.inner.aborted || death.inner.cleared);
    }
    for process in b.procs.iter() {
        let rows = &process.node_refs.entries;
        for (i, row) in rows.iter().enumerate() {
            for other in rows.iter().skip(i + 1) {
                assert!(row.handle < other.handle);
                assert_ne!(row.info.node_ref.node, other.info.node_ref.node);
            }
        }
    }
}

#[test]
fn call_chain_through_three_processes_unwinds() {
    let mut w = world(0);
    let ctx = 0;
    let pc = w.b.open(ctx, 300, 1002);
    let tc = w.b.get_current_thread(pc, 300);
    w.b.mmap(pc, 300, 0x30_0000, 0x30_0000 + ARENA_SIZE, false).unwrap();
    w.b.looper_enter(tc);
    // P_C hands one of its objects to the manager P_A, which gets handle 1.
    let obj = FlatBinderObject { ty: BINDER_TYPE_BINDER, flags: 0, value: 0xC1, cookie: 0xC2 };
    w.b.update_ref(pc, 0, true, true).unwrap();
    w.b.thread_transaction(tc, &with_object(0, 1, TF_ONE_WAY, obj), &Vec::new()).unwrap();
    let got = read(&mut w.b, w.ta);
    // P_A keeps the reference beyond the life of the buffer.
    w.b.update_ref(w.pa, 1, true, true).unwrap();
    w.b.free_buffer(w.pa, buffer_of(got.last().unwrap()) as usize);
    assert_eq!(w.b.procs[w.pa].node_refs.entries.len(), 1);
    assert_routed(&w.b);

    // P_B calls P_A (T1); while serving it, P_A calls P_C (T2).
    w.b.thread_transaction(w.tb, &plain(0, 10, 0, b"1"), &Vec::new()).unwrap();
    let t1 = w.b.threads[w.tb].current_transaction.unwrap();
    read(&mut w.b, w.ta);
    assert_eq!(w.b.threads[w.ta].current_transaction, Some(t1));
    w.b.thread_transaction(w.ta, &plain(1, 20, 0, b"2"), &Vec::new()).unwrap();
    let t2 = w.b.threads[w.ta].current_transaction.unwrap();
    assert_eq!(w.b.txns[t2].stack_next, Some(t1));
    // Nobody in P_C waits for this chain: the call goes to the process.
    assert_eq!(w.b.find_target_thread(t2), None);
    assert_eq!(w.b.find_from(t2, w.tb), Some(t1));
    assert_eq!(w.b.find_from(t2, tc), None);
    let got = read(&mut w.b, tc);
    assert!(matches!(got.last().unwrap(), Br::Txn { tcode: 20, .. }));
    assert_eq!(w.b.threads[tc].current_transaction, Some(t2));
    assert_routed(&w.b);

    // P_C replies: nothing of the chain below T2 is its own.
    w.b.thread_reply(tc, &plain(0, 0, 0, b"r2"), &Vec::new()).unwrap();
    assert_eq!(w.b.threads[tc].current_transaction, None);
    assert_eq!(w.b.threads[w.ta].current_transaction, Some(t1));
    assert_routed(&w.b);
    read(&mut w.b, w.ta);
    w.b.thread_reply(w.ta, &plain(0, 0, 0, b"r1"), &Vec::new()).unwrap();
    assert_eq!(w.b.threads[w.ta].current_transaction, None);
    assert_eq!(w.b.threads[w.tb].current_transaction, None);
    assert_routed(&w.b);
}

#[test]
fn invariants_hold_along_a_busy_run() {
    let mut w = world(FLAT_BINDER_FLAG_ACCEPTS_FDS);
    assert_routed(&w.b);
    w.b.request_death(w.pb, 0, 0xC0, w.tb, true).unwrap();
    for code in [1u32, 2, 3] {
        w.b.thread_transaction(w.tb, &plain(0, code, TF_ONE_WAY, b"o"), &Vec::new()).unwrap();
        assert_routed(&w.b);
    }
    let obj = FlatBinderObject { ty: BINDER_TYPE_BINDER, flags: 0, value: 0x51, cookie: 0x52 };
    w.b.thread_transaction(w.tb, &with_object(0, 4, 0, obj), &Vec::new()).unwrap();
    assert_routed(&w.b);
    for _ in 0..4 {
        let got = read(&mut w.b, w.ta);
        assert_routed(&w.b);
        if let Some(txn @ Br::Txn { .. }) = got.last() {
            if w.b.threads[w.ta].current_transaction.is_some() {
                w.b.thread_transaction(w.ta, &plain(1, 9, 0, b"cb"), &Vec::new()).unwrap();
                assert_routed(&w.b);
                read(&mut w.b, w.tb);
                w.b.thread_reply(w.tb, &plain(0, 0, 0, b"r"), &Vec::new()).unwrap();
                assert_routed(&w.b);
                read(&mut w.b, w.ta);
                w.b.thread_reply(w.ta, &plain(0, 0, 0, b"r"), &Vec::new()).unwrap();
            }
            w.b.free_buffer(w.pa, buffer_of(txn) as usize);
            assert_routed(&w.b);
        }
    }
    read(&mut w.b, w.tb);
    w.b.execute(w.tb, Command::Release(0)).unwrap();
    assert_routed(&w.b);
    w.b.release(w.pa);
    w.b.run_deferred(w.pa);
    assert_routed(&w.b);
    w.b.remove_thread(w.pb, w.tb);
    w.b.release(w.pb);
    w.b.run_deferred(w.pb);
    assert_routed(&w.b);
    for thread in w.b.threads.iter() {
        assert_eq!(thread.current_transaction, None);
    }
}

#[test]
fn freeing_a_buffer_gives_up_the_references_in_it() {
    let mut w = world(0);
    let obj = FlatBinderObject { ty: BINDER_TYPE_BINDER, flags: 0, value: 0x51, cookie: 0x52 };
    w.b.thread_transaction(w.tb, &with_object(0, 1, TF_ONE_WAY, obj), &Vec::new()).unwrap();
    let got = read(&mut w.b, w.ta);
    assert_eq!(w.b.procs[w.pa].node_refs.entries.len(), 1);
    let node = w.b.procs[w.pb].inner.nodes[0];
    assert_eq!(w.b.nodes[node].inner.strong.count, 1);
    w.b.free_buffer(w.pa, buffer_of(got.last().unwrap()) as usize);
    // The handle went with the buffer, and the node lost its count.
    assert!(w.b.procs[w.pa].node_refs.entries.is_empty());
    assert_eq!(w.b.nodes[node].inner.strong.count, 0);
}

#[test]
fn cleanup_oneway_cancels_what_waits_and_clears_the_flag() {
    let mut w = world(0);
    for code in [1u32, 2, 3] {
        w.b.thread_transaction(w.tb, &plain(0, code, TF_ONE_WAY, b"o"), &Vec::new()).unwrap();
    }
    let n = w.b.contexts[0].manager.node.as_ref().unwrap().node;
    let waiting: Vec<usize> = w.b.nodes[n].inner.oneway_todo.iter().copied().collect();
    assert_eq!(waiting.len(), 2);
    assert!(w.b.nodes[n].inner.has_pending_oneway_todo);
    w.b.cleanup_oneway(n);
    assert!(w.b.nodes[n].inner.oneway_todo.is_empty());
    assert!(!w.b.nodes[n].inner.has_pending_oneway_todo);
    // What waited has given its buffer back.
    for t in waiting {
        assert!(!w.b.txns[t].free_allocation);
    }
    // The one that was on its way is still delivered, and nothing after it.
    let got = read(&mut w.b, w.ta);
    assert_eq!(got.len(), 2);
    assert!(matches!(got[1], Br::Txn { tcode: 1, .. }));
    w.b.execute(w.ta, Command::FreeBuffer(buffer_of(&got[1]))).unwrap();
    assert_eq!(read(&mut w.b, w.ta), vec![Br::Code(BR_NOOP)]);
    assert!(all_free(&w.b, w.pa));
}

#[test]
fn reader_waits_only_when_nothing_calls_it_back() {
    let mut w = world(0);
    // Both threads have read once, so neither is due to return.
    assert!(w.b.read_should_wait(w.ta, true, false));
    assert!(!w.b.read_should_wait(w.ta, false, false));
    assert!(!w.b.read_should_wait(w.ta, true, true));
    assert!(w.b.flush(w.pa));
    w.b.run_deferred(w.pa);
    assert!(w.b.threads[w.ta].looper_need_return);
    assert!(!w.b.read_should_wait(w.ta, true, false));
    assert!(w.b.read_should_wait(w.tb, true, false));
    w.b.remove_thread(w.pb, w.tb);
    assert!(!w.b.read_should_wait(w.tb, true, false));
    let tc = w.b.get_current_thread(w.pb, 201);
    read(&mut w.b, tc);
    assert!(w.b.read_should_wait(tc, true, false));
    w.b.release(w.pb);
    w.b.run_deferred(w.pb);
    assert!(!w.b.read_should_wait(tc, true, false));
}

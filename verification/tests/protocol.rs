use rust_binder::binder::Binder;
use rust_binder::commands::{read_command, Command, TransactionHeader};
use rust_binder::defs::{
    flag_set, ioc, BinderError, WorkItem, BC_ACQUIRE, BC_ACQUIRE_DONE, BC_CLEAR_DEATH_NOTIFICATION,
    BC_DEAD_BINDER_DONE, BC_DECREFS, BC_ENTER_LOOPER, BC_EXIT_LOOPER, BC_FREE_BUFFER, BC_INCREFS,
    BC_INCREFS_DONE, BC_REGISTER_LOOPER, BC_RELEASE, BC_REPLY, BC_REPLY_SG,
    BC_REQUEST_DEATH_NOTIFICATION, BC_TRANSACTION, BC_TRANSACTION_SG, BR_ACQUIRE,
    BR_CLEAR_DEATH_NOTIFICATION_DONE, BR_DEAD_BINDER, BR_DEAD_REPLY, BR_DECREFS, BR_ERROR,
    BR_FAILED_REPLY, BR_INCREFS, BR_NOOP, BR_OK, BR_RELEASE, BR_REPLY, BR_SPAWN_LOOPER,
    BR_TRANSACTION, BR_TRANSACTION_COMPLETE, BR_TRANSACTION_SEC_CTX, FLAT_BINDER_FLAG_ACCEPTS_FDS,
    FLAT_BINDER_FLAG_TXN_SECURITY_CTX, IOC_NONE, IOC_READ, IOC_WRITE, TF_ACCEPT_FDS, TF_CLEAR_BUF,
    TF_ONE_WAY,
};
use rust_binder::ioctl::{
    BINDER_CURRENT_PROTOCOL_VERSION, BINDER_ENABLE_ONEWAY_SPAM_DETECTION,
    BINDER_GET_NODE_DEBUG_INFO, BINDER_GET_NODE_INFO_FOR_REF, BINDER_SET_CONTEXT_MGR,
    BINDER_SET_CONTEXT_MGR_EXT, BINDER_SET_MAX_THREADS, BINDER_THREAD_EXIT, BINDER_VERSION,
    BINDER_WRITE_READ,
};
use rust_binder::lifecycle::{BinderNodeDebugInfo, BinderNodeInfoForRef};
use rust_binder::objects::{
    FlatBinderObject, BINDER_TYPE_BINDER, BINDER_TYPE_FD, BINDER_TYPE_HANDLE,
    BINDER_TYPE_WEAK_BINDER, BINDER_TYPE_WEAK_HANDLE,
};
use rust_binder::send::{ptr_align, transaction_fds, BinderTransactionData};
use rust_binder::user_ptr::{UserSlicePtr, UserSlicePtrWriter};

#[test]
fn return_opcodes_have_their_canonical_values() {
    let r = b'r';
    assert_eq!(ioc(IOC_READ, r, 0, 4), BR_ERROR);
    assert_eq!(ioc(IOC_NONE, r, 1, 0), BR_OK);
    assert_eq!(ioc(IOC_READ, r, 2, 72), BR_TRANSACTION_SEC_CTX);
    assert_eq!(ioc(IOC_READ, r, 2, 64), BR_TRANSACTION);
    assert_eq!(ioc(IOC_READ, r, 3, 64), BR_REPLY);
    assert_eq!(ioc(IOC_NONE, r, 5, 0), BR_DEAD_REPLY);
    assert_eq!(ioc(IOC_NONE, r, 6, 0), BR_TRANSACTION_COMPLETE);
    assert_eq!(ioc(IOC_READ, r, 7, 16), BR_INCREFS);
    assert_eq!(ioc(IOC_READ, r, 8, 16), BR_ACQUIRE);
    assert_eq!(ioc(IOC_READ, r, 9, 16), BR_RELEASE);
    assert_eq!(ioc(IOC_READ, r, 10, 16), BR_DECREFS);
    assert_eq!(ioc(IOC_NONE, r, 12, 0), BR_NOOP);
    assert_eq!(ioc(IOC_NONE, r, 13, 0), BR_SPAWN_LOOPER);
    assert_eq!(ioc(IOC_READ, r, 15, 8), BR_DEAD_BINDER);
    assert_eq!(ioc(IOC_READ, r, 16, 8), BR_CLEAR_DEATH_NOTIFICATION_DONE);
    assert_eq!(ioc(IOC_NONE, r, 17, 0), BR_FAILED_REPLY);
    assert_eq!(BR_TRANSACTION, 0x8040_7202);
    assert_eq!(BR_NOOP, 0x720c);
}

#[test]
fn command_opcodes_have_their_canonical_values() {
    let c = b'c';
    assert_eq!(ioc(IOC_WRITE, c, 0, 64), BC_TRANSACTION);
    assert_eq!(ioc(IOC_WRITE, c, 1, 64), BC_REPLY);
    assert_eq!(ioc(IOC_WRITE, c, 3, 8), BC_FREE_BUFFER);
    assert_eq!(ioc(IOC_WRITE, c, 4, 4), BC_INCREFS);
    assert_eq!(ioc(IOC_WRITE, c, 5, 4), BC_ACQUIRE);
    assert_eq!(ioc(IOC_WRITE, c, 6, 4), BC_RELEASE);
    assert_eq!(ioc(IOC_WRITE, c, 7, 4), BC_DECREFS);
    assert_eq!(ioc(IOC_WRITE, c, 8, 16), BC_INCREFS_DONE);
    assert_eq!(ioc(IOC_WRITE, c, 9, 16), BC_ACQUIRE_DONE);
    assert_eq!(ioc(IOC_NONE, c, 11, 0), BC_REGISTER_LOOPER);
    assert_eq!(ioc(IOC_NONE, c, 12, 0), BC_ENTER_LOOPER);
    assert_eq!(ioc(IOC_NONE, c, 13, 0), BC_EXIT_LOOPER);
    assert_eq!(ioc(IOC_WRITE, c, 14, 12), BC_REQUEST_DEATH_NOTIFICATION);
    assert_eq!(ioc(IOC_WRITE, c, 15, 12), BC_CLEAR_DEATH_NOTIFICATION);
    assert_eq!(ioc(IOC_WRITE, c, 16, 8), BC_DEAD_BINDER_DONE);
    assert_eq!(ioc(IOC_WRITE, c, 17, 72), BC_TRANSACTION_SG);
    assert_eq!(ioc(IOC_WRITE, c, 18, 72), BC_REPLY_SG);
}

#[test]
fn ioctl_numbers_have_their_canonical_values() {
    let b = b'b';
    assert_eq!(ioc(3, b, 1, 48), BINDER_WRITE_READ);
    assert_eq!(ioc(IOC_WRITE, b, 5, 4), BINDER_SET_MAX_THREADS);
    assert_eq!(ioc(IOC_WRITE, b, 7, 4), BINDER_SET_CONTEXT_MGR);
    assert_eq!(ioc(IOC_WRITE, b, 8, 4), BINDER_THREAD_EXIT);
    assert_eq!(ioc(3, b, 9, 4), BINDER_VERSION);
    assert_eq!(ioc(3, b, 11, 24), BINDER_GET_NODE_DEBUG_INFO);
    assert_eq!(ioc(3, b, 12, 24), BINDER_GET_NODE_INFO_FOR_REF);
    assert_eq!(ioc(IOC_WRITE, b, 13, 24), BINDER_SET_CONTEXT_MGR_EXT);
    assert_eq!(ioc(IOC_WRITE, b, 16, 4), BINDER_ENABLE_ONEWAY_SPAM_DETECTION);
}

#[test]
fn flags_sit_at_their_reference_positions() {
    assert_eq!((TF_ONE_WAY, TF_ACCEPT_FDS, TF_CLEAR_BUF), (0x01, 0x10, 0x20));
    assert_eq!((FLAT_BINDER_FLAG_ACCEPTS_FDS, FLAT_BINDER_FLAG_TXN_SECURITY_CTX), (0x100, 0x1000));
    assert!(flag_set(0x31, TF_ONE_WAY));
    assert!(!flag_set(0x30, TF_ONE_WAY));
    assert!(flag_set(0x1100, FLAT_BINDER_FLAG_TXN_SECURITY_CTX));
}

#[test]
fn errors_map_to_errno_and_reply_code() {
    assert_eq!(BinderError::Dead.errno(), None);
    assert_eq!(BinderError::Failed.errno(), None);
    assert_eq!(BinderError::BadFd.errno(), Some(9));
    assert_eq!(BinderError::BadArg.errno(), Some(22));
    assert_eq!(BinderError::Perm.errno(), Some(1));
    assert_eq!(BinderError::Busy.errno(), Some(16));
    assert_eq!(BinderError::NoMem.errno(), Some(12));
    assert_eq!(BinderError::NoEnt.errno(), Some(2));
    assert_eq!(BinderError::Srch.errno(), Some(3));
    assert_eq!(BinderError::Fault.errno(), Some(14));
    assert_eq!(BinderError::Dead.reply_code(), BR_DEAD_REPLY);
    assert_eq!(BinderError::Failed.reply_code(), BR_FAILED_REPLY);
    assert_eq!(BinderError::NoMem.reply_code(), BR_FAILED_REPLY);
}

#[test]
fn ptr_align_rounds_up_to_eight() {
    assert_eq!(ptr_align(0), Some(0));
    assert_eq!(ptr_align(1), Some(8));
    assert_eq!(ptr_align(8), Some(8));
    assert_eq!(ptr_align(9), Some(16));
    assert_eq!(ptr_align(usize::MAX - 7), Some(usize::MAX - 7));
    assert_eq!(ptr_align(usize::MAX - 6), None);
}

#[test]
fn object_codec_round_trips() {
    let o = FlatBinderObject { ty: BINDER_TYPE_HANDLE, flags: 0x17f, value: 0x1122_3344_5566_7788, cookie: 9 };
    let bytes = o.encode();
    assert_eq!(bytes.len(), 24);
    assert_eq!(&bytes[0..4], &[0x85, 0x2a, 0x68, 0x73]);
    assert_eq!(&bytes[8..16], &[0x88, 0x77, 0x66, 0x55, 0x44, 0x33, 0x22, 0x11]);
    assert_eq!(FlatBinderObject::decode(&bytes), o);
    assert_eq!(FlatBinderObject::new_binder(1, 2, 3, true).ty, BINDER_TYPE_BINDER);
    assert_eq!(FlatBinderObject::new_binder(1, 2, 3, false).ty, BINDER_TYPE_WEAK_BINDER);
    assert_eq!(FlatBinderObject::new_handle(4, 0, true).ty, BINDER_TYPE_HANDLE);
    assert_eq!(
        FlatBinderObject::new_handle(4, 5, false),
        FlatBinderObject { ty: BINDER_TYPE_WEAK_HANDLE, flags: 5, value: 4, cookie: 0 }
    );
}

#[test]
fn transaction_fds_lists_descriptors_by_object() {
    let mut data = FlatBinderObject { ty: BINDER_TYPE_FD, flags: 0, value: 7, cookie: 0 }.encode();
    data.extend(FlatBinderObject::new_handle(3, 0, true).encode());
    data.extend(FlatBinderObject { ty: BINDER_TYPE_FD, flags: 0, value: 9, cookie: 0 }.encode());
    let tr = BinderTransactionData {
        target_handle: 0,
        code: 0,
        flags: 0,
        data,
        offsets: vec![0, 24, 48, 49, 1000],
        secctx: Vec::new(),
    };
    assert_eq!(transaction_fds(&tr), vec![Some(7), None, Some(9), None, None]);
}

fn stream(parts: &[&[u8]]) -> Vec<u8> {
    parts.iter().flat_map(|p| p.iter().copied()).collect()
}

#[test]
fn commands_are_decoded_one_after_the_other() {
    let bytes = stream(&[
        &BC_INCREFS.to_le_bytes(),
        &5u32.to_le_bytes(),
        &BC_ENTER_LOOPER.to_le_bytes(),
        &BC_FREE_BUFFER.to_le_bytes(),
        &0x1234_5678_9abcu64.to_le_bytes(),
        &BC_REQUEST_DEATH_NOTIFICATION.to_le_bytes(),
        &3u32.to_le_bytes(),
        &0xC0u64.to_le_bytes(),
        &BC_ACQUIRE_DONE.to_le_bytes(),
        &0xAAu64.to_le_bytes(),
        &0xBBu64.to_le_bytes(),
    ]);
    let mut r = UserSlicePtr::new(bytes).reader();
    assert_eq!(read_command(&mut r), Ok(Command::IncRefs(5)));
    assert_eq!(read_command(&mut r), Ok(Command::EnterLooper));
    assert_eq!(read_command(&mut r), Ok(Command::FreeBuffer(0x1234_5678_9abc)));
    assert_eq!(read_command(&mut r), Ok(Command::RequestDeathNotification { handle: 3, cookie: 0xC0 }));
    assert_eq!(read_command(&mut r), Ok(Command::AcquireDone { ptr: 0xAA, cookie: 0xBB }));
    assert!(r.is_empty());
    assert_eq!(read_command(&mut r), Err(BinderError::Fault));
}

#[test]
fn every_simple_command_is_decoded() {
    let cases: Vec<(u32, Vec<u8>, Command)> = vec![
        (BC_ACQUIRE, 1u32.to_le_bytes().to_vec(), Command::Acquire(1)),
        (BC_RELEASE, 2u32.to_le_bytes().to_vec(), Command::Release(2)),
        (BC_DECREFS, 3u32.to_le_bytes().to_vec(), Command::DecRefs(3)),
        (BC_REGISTER_LOOPER, Vec::new(), Command::RegisterLooper),
        (BC_EXIT_LOOPER, Vec::new(), Command::ExitLooper),
        (BC_DEAD_BINDER_DONE, 8u64.to_le_bytes().to_vec(), Command::DeadBinderDone(8)),
        (
            BC_INCREFS_DONE,
            stream(&[&1u64.to_le_bytes(), &2u64.to_le_bytes()]),
            Command::IncRefsDone { ptr: 1, cookie: 2 },
        ),
        (
            BC_CLEAR_DEATH_NOTIFICATION,
            stream(&[&1u32.to_le_bytes(), &2u64.to_le_bytes()]),
            Command::ClearDeathNotification { handle: 1, cookie: 2 },
        ),
    ];
    for (op, payload, want) in cases {
        let mut r = UserSlicePtr::new(stream(&[&op.to_le_bytes(), &payload])).reader();
        assert_eq!(read_command(&mut r), Ok(want));
        assert!(r.is_empty());
    }
}

fn header_bytes(sg: bool) -> Vec<u8> {
    let mut b = stream(&[
        &7u64.to_le_bytes(),
        &8u64.to_le_bytes(),
        &42u32.to_le_bytes(),
        &TF_ONE_WAY.to_le_bytes(),
        &0u32.to_le_bytes(),
        &0u32.to_le_bytes(),
        &3u64.to_le_bytes(),
        &16u64.to_le_bytes(),
        &0x7000u64.to_le_bytes(),
        &0x8000u64.to_le_bytes(),
    ]);
    if sg {
        b.extend(&64u64.to_le_bytes());
    }
    b
}

#[test]
fn transaction_commands_carry_their_header() {
    let want = TransactionHeader {
        target: 7,
        cookie: 8,
        code: 42,
        flags: TF_ONE_WAY,
        sender_pid: 0,
        sender_euid: 0,
        data_size: 3,
        offsets_size: 16,
        buffer: 0x7000,
        offsets: 0x8000,
        buffers_size: 0,
    };
    let mut r = UserSlicePtr::new(stream(&[&BC_TRANSACTION.to_le_bytes(), &header_bytes(false)])).reader();
    assert_eq!(read_command(&mut r), Ok(Command::Transaction(want)));
    let mut r = UserSlicePtr::new(stream(&[&BC_REPLY.to_le_bytes(), &header_bytes(false)])).reader();
    assert_eq!(read_command(&mut r), Ok(Command::Reply(want)));
    let sg = TransactionHeader { buffers_size: 64, ..want };
    let mut r = UserSlicePtr::new(stream(&[&BC_TRANSACTION_SG.to_le_bytes(), &header_bytes(true)])).reader();
    assert_eq!(read_command(&mut r), Ok(Command::Transaction(sg)));
    let mut r = UserSlicePtr::new(stream(&[&BC_REPLY_SG.to_le_bytes(), &header_bytes(true)])).reader();
    assert_eq!(read_command(&mut r), Ok(Command::Reply(sg)));
    assert_eq!(r.len(), 0);
}

#[test]
fn unknown_and_truncated_commands_are_refused() {
    let mut r = UserSlicePtr::new(0xdead_beefu32.to_le_bytes().to_vec()).reader();
    assert_eq!(read_command(&mut r), Err(BinderError::BadArg));
    assert_eq!(r.pos, 4);
    let mut r = UserSlicePtr::new(stream(&[&BC_INCREFS.to_le_bytes(), &[1, 2]])).reader();
    assert_eq!(read_command(&mut r), Err(BinderError::Fault));
    assert_eq!(r.pos, 4);
    let mut r = UserSlicePtr::new(vec![1, 2, 3]).reader();
    assert_eq!(read_command(&mut r), Err(BinderError::Fault));
    assert_eq!(r.pos, 0);
}

fn manager_process() -> (Binder, usize, usize) {
    let mut b = Binder::new();
    let c = b.create_context(b"binder".to_vec());
    let p = b.open(c, 10, 500);
    (b, c, p)
}

#[test]
fn execute_refuses_commands_that_need_a_payload() {
    let (mut b, _c, p) = manager_process();
    let t = b.get_current_thread(p, 10);
    let h = TransactionHeader {
        target: 0, cookie: 0, code: 0, flags: 0, sender_pid: 0, sender_euid: 0,
        data_size: 0, offsets_size: 0, buffer: 0, offsets: 0, buffers_size: 0,
    };
    assert_eq!(b.execute(t, Command::Transaction(h)), Err(BinderError::BadArg));
    assert_eq!(b.execute(t, Command::Reply(h)), Err(BinderError::BadArg));
    assert_eq!(b.execute(t, Command::EnterLooper), Ok(()));
    assert!(b.threads[t].looper.entered);
    assert_eq!(b.execute(t, Command::DecRefs(4)), Ok(()));
    assert_eq!(b.execute(t, Command::RequestDeathNotification { handle: 4, cookie: 0 }), Err(BinderError::BadArg));
}

#[test]
fn control_ioctls() {
    let (mut b, c, p) = manager_process();
    let mut r = UserSlicePtr::new(7u32.to_le_bytes().to_vec()).reader();
    assert_eq!(b.ioctl_write(p, 10, BINDER_SET_MAX_THREADS, &mut r, 500, None), Ok(0));
    assert_eq!(b.procs[p].inner.max_threads, 7);
    // The call made a thread for the task.
    assert_eq!(b.procs[p].inner.threads.len(), 1);
    let t = b.procs[p].inner.threads[0];
    assert_eq!(b.threads[t].id, 10);

    let mut r = UserSlicePtr::new(vec![1, 2]).reader();
    assert_eq!(b.ioctl_write(p, 10, BINDER_SET_MAX_THREADS, &mut r, 500, None), Err(BinderError::Fault));
    let mut r = UserSlicePtr::new(Vec::new()).reader();
    assert_eq!(b.ioctl_write(p, 10, BINDER_ENABLE_ONEWAY_SPAM_DETECTION, &mut r, 500, None), Ok(0));
    assert_eq!(b.ioctl_write(p, 10, BINDER_WRITE_READ, &mut r, 500, None), Err(BinderError::BadArg));
    assert_eq!(b.ioctl_write(p, 10, 0x1234, &mut r, 500, None), Err(BinderError::BadArg));

    let obj = FlatBinderObject { ty: BINDER_TYPE_BINDER, flags: 0x100, value: 0xAA, cookie: 0xBB };
    let mut r = UserSlicePtr::new(obj.encode()).reader();
    assert_eq!(b.ioctl_write(p, 10, BINDER_SET_CONTEXT_MGR_EXT, &mut r, 500, None), Ok(0));
    let n = b.contexts[c].manager.node.as_ref().unwrap().node;
    assert_eq!((b.nodes[n].ptr, b.nodes[n].cookie, b.nodes[n].flags), (0xAA, 0xBB, 0x100));
    let mut r = UserSlicePtr::new(Vec::new()).reader();
    assert_eq!(b.ioctl_write(p, 10, BINDER_SET_CONTEXT_MGR, &mut r, 500, None), Err(BinderError::Busy));
    assert_eq!(b.ioctl_write(p, 10, BINDER_SET_CONTEXT_MGR_EXT, &mut r, 500, None), Err(BinderError::Fault));

    assert_eq!(b.ioctl_write(p, 10, BINDER_THREAD_EXIT, &mut r, 500, None), Ok(0));
    assert!(b.threads[t].is_dead);
    assert!(b.procs[p].inner.threads.is_empty());
}

#[test]
fn version_query_writes_protocol_version() {
    let mut w = UserSlicePtrWriter::new(4);
    assert_eq!(Binder::version(&mut w), Ok(()));
    assert_eq!(w.data, 8u32.to_le_bytes().to_vec());
    assert_eq!(BINDER_CURRENT_PROTOCOL_VERSION, 8);
    let mut w = UserSlicePtrWriter::new(3);
    assert_eq!(Binder::version(&mut w), Err(BinderError::Fault));
}

#[test]
fn node_debug_info_walks_nodes_by_address() {
    let (mut b, _c, p) = manager_process();
    let r30 = b.get_node(p, 0x30, 3, 0, true, None).unwrap();
    let _r10 = b.get_node(p, 0x10, 1, 0, false, None).unwrap();
    let _r20 = b.get_node(p, 0x20, 2, 0, false, None).unwrap();
    b.nodes[r30.node].deliver_locked();
    let zero = BinderNodeDebugInfo { ptr: 0, cookie: 0, has_strong_ref: 0, has_weak_ref: 0 };
    assert_eq!(
        b.get_node_debug_info(p, 0),
        BinderNodeDebugInfo { ptr: 0x10, cookie: 1, has_strong_ref: 0, has_weak_ref: 0 }
    );
    assert_eq!(b.get_node_debug_info(p, 0x10).ptr, 0x20);
    assert_eq!(
        b.get_node_debug_info(p, 0x2f),
        BinderNodeDebugInfo { ptr: 0x30, cookie: 3, has_strong_ref: 1, has_weak_ref: 1 }
    );
    assert_eq!(b.get_node_debug_info(p, 0x30), zero);

    let mut r = UserSlicePtr::new(0x10u64.to_le_bytes().to_vec()).reader();
    let mut w = UserSlicePtrWriter::new(24);
    assert_eq!(b.ioctl_node_debug_info(p, &mut r, &mut w), Ok(()));
    assert_eq!(
        w.data,
        stream(&[&0x20u64.to_le_bytes(), &2u64.to_le_bytes(), &0u32.to_le_bytes(), &0u32.to_le_bytes()])
    );
    let mut r = UserSlicePtr::new(vec![0; 7]).reader();
    assert_eq!(b.ioctl_node_debug_info(p, &mut r, &mut w), Err(BinderError::Fault));
}

#[test]
fn node_info_for_ref_is_for_the_manager_only() {
    let (mut b, c, p) = manager_process();
    let other = b.open(c, 11, 0);
    let r = b.get_node(other, 0x10, 1, 0, true, None).unwrap();
    let n = r.node;
    let h = b.insert_or_update_handle(p, r, false).unwrap();
    let req = BinderNodeInfoForRef { handle: h, strong_count: 0, weak_count: 0, reserved1: 0, reserved2: 0, reserved3: 0 };
    assert_eq!(b.get_node_info_from_ref(p, req), Err(BinderError::Perm));
    b.set_as_manager(p, None, 500, None).unwrap();
    assert_eq!(
        b.get_node_info_from_ref(p, BinderNodeInfoForRef { strong_count: 1, ..req }),
        Err(BinderError::BadArg)
    );
    assert_eq!(
        b.get_node_info_from_ref(p, BinderNodeInfoForRef { reserved3: 1, ..req }),
        Err(BinderError::BadArg)
    );
    assert_eq!(
        b.get_node_info_from_ref(p, BinderNodeInfoForRef { handle: 99, ..req }),
        Err(BinderError::BadArg)
    );
    // The counts are read while the query holds a strong reference of its own.
    assert_eq!(
        b.get_node_info_from_ref(p, req),
        Ok(BinderNodeInfoForRef { strong_count: 2, ..req })
    );
    assert_eq!(b.nodes[n].inner.strong.count, 1);

    let mut rd = UserSlicePtr::new(stream(&[&h.to_le_bytes(), &[0u8; 20]])).reader();
    let mut w = UserSlicePtrWriter::new(24);
    assert_eq!(b.ioctl_node_info_for_ref(p, &mut rd, &mut w), Ok(()));
    assert_eq!(w.data, stream(&[&h.to_le_bytes(), &2u32.to_le_bytes(), &[0u8; 16]]));
    let mut rd = UserSlicePtr::new(vec![0; 23]).reader();
    assert_eq!(b.ioctl_node_info_for_ref(p, &mut rd, &mut w), Err(BinderError::Fault));
}

#[test]
fn process_debug_info_lists_what_there_is() {
    let (mut b, _c, p) = manager_process();
    let t = b.get_current_thread(p, 10);
    b.looper_enter(t);
    let r = b.get_node(p, 0x30, 3, 0, true, Some(t)).unwrap();
    let _ = b.thread_get_work(t);
    let _ = b.thread_get_work(t);
    b.threads[t].looper_need_return = false;
    let _ = b.thread_get_work(t);
    let d = b.debug_info(p);
    assert_eq!(d.pid, 10);
    assert!(!d.is_manager);
    assert_eq!(d.started_threads, 0);
    assert!(!d.has_proc_work);
    assert_eq!(d.ready_thread_ids, vec![10]);
    assert_eq!(d.threads, vec![t]);
    assert_eq!(d.nodes.len(), 1);
    let n = d.nodes[0];
    assert_eq!((n.global_id, n.ptr, n.cookie), (r.node as u64, 0x30, 3));
    assert_eq!((n.strong, n.has_strong, n.weak, n.has_weak, n.active_inc_refs), (1, false, 0, false, 0));
    b.push_work(p, WorkItem::Return(1)).unwrap();
    // The waiting thread took it.
    assert!(!b.debug_info(p).has_proc_work);
    assert!(b.debug_info(p).ready_thread_ids.is_empty());
    assert!(b.poll(t));
}

#[test]
fn sync_wakeup_is_for_calls_that_wait() {
    let (mut b, c, p) = manager_process();
    let t = b.get_current_thread(p, 10);
    b.mmap(p, 10, 0x1000, 0x2000, false).unwrap();
    b.set_as_manager(p, None, 500, None).unwrap();
    let q = b.open(c, 11, 0);
    let tq = b.get_current_thread(q, 11);
    let tr = |flags: u32| BinderTransactionData {
        target_handle: 0, code: 0, flags, data: Vec::new(), offsets: Vec::new(), secctx: Vec::new(),
    };
    b.thread_transaction(tq, &tr(0), &Vec::new()).unwrap();
    b.thread_transaction(tq, &tr(TF_ONE_WAY), &Vec::new()).unwrap();
    assert!(b.should_sync_wakeup(WorkItem::Transaction(0)));
    assert!(!b.should_sync_wakeup(WorkItem::Transaction(1)));
    assert!(!b.should_sync_wakeup(WorkItem::Node(0)));
    assert!(!b.should_sync_wakeup(WorkItem::Return(BR_OK)));
    // The sender has its completion to read.
    assert!(b.poll(tq));
    // A thread outside the pool does not see the work of its process.
    assert!(!b.poll(t));
    assert_eq!(b.get_procs_with_pid(c, 11), vec![q]);
    assert_eq!(b.get_procs_with_pid(c, 12), Vec::<usize>::new());
    assert_eq!(b.get_all_procs(c), vec![p, q]);
}

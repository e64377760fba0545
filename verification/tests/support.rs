use rust_binder::defs::BinderError;
use rust_binder::file::{BadFdError, FileDescriptorReservation};
use rust_binder::iov::IovIterSource;
use rust_binder::irq::{IrqRequest, IrqReturn, ThreadedIrqReturn};
use rust_binder::miscdevice::{IovIter, Kiocb, MiscDeviceOptions, MISC_DYNAMIC_MINOR};
use rust_binder::of::{DeviceId, DeviceNode, NoDevice, Property};
use rust_binder::user_ptr::{
    ReadableFromBytes, UserSlicePtr, UserSlicePtrWriter, WritableToBytes,
};

#[test]
fn fd_reservation_wraps_the_answer_of_the_descriptor_table() {
    let r = FileDescriptorReservation::new(5).unwrap();
    assert_eq!(r.reserved_fd(), 5);
    assert_eq!(r.commit(77), (5, 77));
    assert_eq!(FileDescriptorReservation::new(0).unwrap().reserved_fd(), 0);
    assert_eq!(FileDescriptorReservation::new(-24), Err(-24));
    assert_eq!(BadFdError.to_error(), BinderError::BadFd);
}

#[test]
fn iov_source_is_a_cursor_over_bytes() {
    let mut s = IovIterSource::new(b"hello world".to_vec());
    assert_eq!(s.len(), 11);
    assert!(!s.is_empty());
    s.advance(6);
    assert_eq!(s.len(), 5);
    let mut out = vec![b'>'];
    assert_eq!(s.copy_from_iter(&mut out, 3), 3);
    assert_eq!(out, b">wor".to_vec());
    s.revert(2);
    assert_eq!(s.copy_from_iter(&mut out, 100), 4);
    assert_eq!(out, b">world".to_vec()[..1].iter().chain(b"wor".iter()).chain(b"orld".iter()).copied().collect::<Vec<u8>>());
    assert!(s.is_empty());
    assert_eq!(s.copy_from_iter(&mut out, 1), 0);
}

#[test]
fn iov_source_advance_stops_at_the_end() {
    let mut s = IovIterSource::new(vec![1, 2, 3]);
    s.advance(10);
    assert!(s.is_empty());
    assert_eq!(s.pos, 3);
    s.revert(3);
    let mut out = Vec::new();
    assert_eq!(s.copy_from_iter_vec(&mut out), 3);
    assert_eq!(out, vec![1, 2, 3]);
    assert!(IovIterSource::new(Vec::new()).is_empty());
}

#[test]
fn irq_request_and_return_values() {
    assert_eq!(IrqRequest::new(42).irq(), 42);
    assert_eq!(IrqReturn::Unhandled.into_inner(), 0);
    assert_eq!(IrqReturn::Handled.into_inner(), 1);
    assert_eq!(ThreadedIrqReturn::Unhandled.into_inner(), 0);
    assert_eq!(ThreadedIrqReturn::Handled.into_inner(), 1);
    assert_eq!(ThreadedIrqReturn::WakeThread.into_inner(), 2);
}

#[test]
fn device_id_becomes_zero_terminated_raw_id() {
    let id = DeviceId { compatible: b"arm,mali-valhall".to_vec() };
    let raw = id.to_rawid(-3);
    assert_eq!(raw.data, -3);
    assert_eq!(raw.name, vec![0u8; 32]);
    assert_eq!(raw.type_, vec![0u8; 32]);
    assert_eq!(raw.compatible.len(), 128);
    assert_eq!(&raw.compatible[..16], b"arm,mali-valhall");
    assert!(raw.compatible[16..].iter().all(|b| *b == 0));
    // The longest string that leaves room for its terminator.
    let long = DeviceId { compatible: vec![b'x'; 127] };
    let raw = long.to_rawid(0);
    assert_eq!(raw.compatible[126], b'x');
    assert_eq!(raw.compatible[127], 0);
    let empty = DeviceId { compatible: Vec::new() }.to_rawid(1);
    assert_eq!(empty.compatible, vec![0u8; 128]);
}

#[test]
fn device_node_finds_first_property_by_name() {
    let node = DeviceNode {
        properties: vec![
            Property { name: b"reg".to_vec(), value: vec![1] },
            Property { name: b"status".to_vec(), value: b"okay".to_vec() },
            Property { name: b"reg".to_vec(), value: vec![2] },
        ],
    };
    assert_eq!(node.find_property(&b"reg".to_vec()).map(|p| p.value.clone()), Ok(vec![1]));
    assert_eq!(node.find_property(&b"status".to_vec()).map(|p| p.value.clone()), Ok(b"okay".to_vec()));
    assert_eq!(node.find_property(&b"clocks".to_vec()).map(|p| p.value.clone()), Err(NoDevice));
}

#[test]
fn misc_device_options_ask_for_a_dynamic_minor() {
    let raw = MiscDeviceOptions { name: b"binder".to_vec() }.into_raw();
    assert_eq!(raw.minor, MISC_DYNAMIC_MINOR);
    assert_eq!(raw.minor, 255);
    assert_eq!(raw.name, b"binder".to_vec());
}

#[test]
fn kiocb_position_can_be_read_and_set() {
    let mut k = Kiocb { ki_pos: 5 };
    assert_eq!(k.ki_pos(), 5);
    *k.ki_pos_mut() += 10;
    assert_eq!(k.ki_pos(), 15);
}

#[test]
fn iov_iter_takes_what_fits() {
    let mut d = IovIter::new(5);
    assert_eq!(d.len(), 5);
    assert_eq!(d.copy_to_iter(b"abc"), 3);
    assert_eq!(d.copy_to_iter(b"defg"), 2);
    assert_eq!(d.data, b"abcde".to_vec());
    assert_eq!(d.len(), 0);
    assert_eq!(d.copy_to_iter(b"x"), 0);
}

#[test]
fn reader_reads_values_front_to_back() {
    let mut r = UserSlicePtr::new(vec![1, 2, 0, 0, 0, 3, 0, 0, 0, 0, 0, 0, 0, 9]).reader();
    assert_eq!(r.len(), 14);
    assert_eq!(r.read::<u8>(), Ok(1));
    assert_eq!(r.read::<u32>(), Ok(2));
    assert_eq!(r.read::<u64>(), Ok(3));
    assert_eq!(r.read::<u32>(), Err(BinderError::Fault));
    assert_eq!(r.len(), 1);
    assert_eq!(r.skip(2), Err(BinderError::Fault));
    assert_eq!(r.read_slice(2), Err(BinderError::Fault));
    assert_eq!(r.read_all(), vec![9]);
    assert!(r.is_empty());
    assert_eq!(r.read_slice(0), Ok(Vec::new()));
}

#[test]
fn reader_skip_and_read_all() {
    let mut r = UserSlicePtr::new(vec![1, 2, 3, 4, 5]).reader();
    assert_eq!(r.skip(2), Ok(()));
    assert_eq!(r.read_slice(2), Ok(vec![3, 4]));
    assert_eq!(r.read_all(), vec![5]);
    assert_eq!(UserSlicePtr::new(vec![7, 8]).read_all(), vec![7, 8]);
}

#[test]
fn writer_writes_or_faults_without_partial_values() {
    let mut w = UserSlicePtr::new(vec![0; 7]).writer();
    assert_eq!(w.len(), 7);
    assert_eq!(w.write(&0x0403_0201u32), Ok(()));
    assert_eq!(w.write(&1u64), Err(BinderError::Fault));
    assert_eq!(w.write_slice(&[9, 9, 9, 9]), Err(BinderError::Fault));
    assert_eq!(w.write_slice(&[5, 6]), Ok(()));
    assert_eq!(w.write(&7u8), Ok(()));
    assert!(w.is_empty());
    assert_eq!(w.data, vec![1, 2, 3, 4, 5, 6, 7]);
    assert_eq!(w.write(&7u8), Err(BinderError::Fault));
}

#[test]
fn writer_write_all_stops_at_first_chunk_that_does_not_fit() {
    let mut w = UserSlicePtrWriter::new(5);
    let chunks = vec![vec![1, 2], vec![3, 4, 5, 6], vec![7]];
    assert_eq!(w.write_all(&chunks), Err(BinderError::Fault));
    assert_eq!(w.data, vec![1, 2]);
    assert_eq!(w.write_all(&vec![vec![3], vec![], vec![4, 5]]), Ok(()));
    assert_eq!(w.data, vec![1, 2, 3, 4, 5]);
}

#[test]
fn byte_codecs_are_little_endian() {
    assert_eq!(0x0102_0304u32.to_bytes(), vec![4, 3, 2, 1]);
    assert_eq!(1u64.to_bytes(), vec![1, 0, 0, 0, 0, 0, 0, 0]);
    assert_eq!(9u8.to_bytes(), vec![9]);
    assert_eq!(<u32 as ReadableFromBytes>::from_bytes(&[4, 3, 2, 1]), 0x0102_0304);
    assert_eq!(<u64 as ReadableFromBytes>::from_bytes(&[1, 0, 0, 0, 0, 0, 0, 2]), 0x0200_0000_0000_0001);
    assert_eq!(<u8 as ReadableFromBytes>::size(), 1);
    assert_eq!(<u32 as ReadableFromBytes>::size(), 4);
    assert_eq!(<u64 as ReadableFromBytes>::size(), 8);
}

#[test]
fn reader_and_writer_over_one_block() {
    let (mut r, mut w) = UserSlicePtr::new(vec![1, 0, 0, 0]).reader_writer();
    assert_eq!(r.read::<u32>(), Ok(1));
    assert_eq!(w.len(), 4);
    assert_eq!(w.write(&2u32), Ok(()));
    assert_eq!(w.data, vec![2, 0, 0, 0]);
}

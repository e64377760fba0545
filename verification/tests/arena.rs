use rust_binder::binder::Binder;
use rust_binder::defs::{BinderError, MAX_MAPPING_SIZE};
use rust_binder::process::{AllocationInfo, Mapping};
use rust_binder::range_alloc::{CommittedSlot, RangeAllocator, Slot, SlotState};

fn shape(a: &RangeAllocator<u32>) -> Vec<(usize, usize, SlotState, Option<u32>)> {
    a.slots.iter().map(|s: &Slot<u32>| (s.offset, s.size, s.state, s.info)).collect()
}

#[test]
fn allocator_starts_all_free() {
    let a: RangeAllocator<u32> = RangeAllocator::new(64);
    assert_eq!(shape(&a), vec![(0, 64, SlotState::Free, None)]);
}

#[test]
fn allocator_reserves_first_fit_in_address_order() {
    let mut a: RangeAllocator<u32> = RangeAllocator::new(64);
    assert_eq!(a.reserve_new(16), Ok(0));
    assert_eq!(a.reserve_new(8), Ok(16));
    assert_eq!(a.reserve_new(8), Ok(24));
    assert_eq!(
        shape(&a),
        vec![
            (0, 16, SlotState::Reserved, None),
            (16, 8, SlotState::Reserved, None),
            (24, 8, SlotState::Reserved, None),
            (32, 32, SlotState::Free, None),
        ]
    );
    // A hole that is large enough is used before the free tail.
    assert_eq!(a.reservation_abort(16), Ok(()));
    assert_eq!(a.reserve_new(4), Ok(16));
    assert_eq!(a.reserve_new(8), Ok(32));
}

#[test]
fn allocator_zero_size_gives_zero_length_slot() {
    let mut a: RangeAllocator<u32> = RangeAllocator::new(8);
    assert_eq!(a.reserve_new(0), Ok(0));
    assert_eq!(a.slots[0].size, 0);
    assert_eq!(a.slots[0].state, SlotState::Reserved);
    // Even a full arena has room for nothing.
    assert_eq!(a.reserve_new(8), Ok(0));
    assert_eq!(a.reserve_new(1), Err(BinderError::NoMem));
    assert_eq!(a.reserve_new(0), Ok(8));
    // An arena of size zero too.
    let mut e: RangeAllocator<u32> = RangeAllocator::new(0);
    assert_eq!(e.reserve_new(0), Ok(0));
    assert_eq!(e.reserve_new(1), Err(BinderError::NoMem));
}

#[test]
fn allocator_more_than_arena_is_no_mem() {
    let mut a: RangeAllocator<u32> = RangeAllocator::new(64);
    assert_eq!(a.reserve_new(65), Err(BinderError::NoMem));
    assert_eq!(a.reserve_new(usize::MAX), Err(BinderError::NoMem));
    assert_eq!(shape(&a), vec![(0, 64, SlotState::Free, None)]);
    assert_eq!(a.reserve_new(64), Ok(0));
}

#[test]
fn allocator_abort_merges_free_neighbours() {
    let mut a: RangeAllocator<u32> = RangeAllocator::new(48);
    a.reserve_new(16).unwrap();
    a.reserve_new(16).unwrap();
    a.reserve_new(16).unwrap();
    assert_eq!(a.reservation_abort(0), Ok(()));
    assert_eq!(a.reservation_abort(32), Ok(()));
    assert_eq!(
        shape(&a),
        vec![
            (0, 16, SlotState::Free, None),
            (16, 16, SlotState::Reserved, None),
            (32, 16, SlotState::Free, None),
        ]
    );
    assert_eq!(a.reservation_abort(16), Ok(()));
    assert_eq!(shape(&a), vec![(0, 48, SlotState::Free, None)]);
}

#[test]
fn allocator_abort_of_unknown_offset_is_bad_arg() {
    let mut a: RangeAllocator<u32> = RangeAllocator::new(48);
    a.reserve_new(16).unwrap();
    assert_eq!(a.reservation_abort(8), Err(BinderError::BadArg));
    assert_eq!(a.reservation_abort(16), Err(BinderError::BadArg));
    a.reservation_commit(0, Some(1)).unwrap();
    // A committed slot is not a reservation.
    assert_eq!(a.reservation_abort(0), Err(BinderError::BadArg));
}

#[test]
fn allocator_commit_makes_slot_visible_with_its_info() {
    let mut a: RangeAllocator<u32> = RangeAllocator::new(48);
    a.reserve_new(16).unwrap();
    // Before the commit a lookup finds nothing.
    assert_eq!(a.reserve_existing(0), Err(BinderError::BadArg));
    assert_eq!(a.reservation_commit(0, Some(7)), Ok(()));
    assert_eq!(a.reservation_commit(0, Some(8)), Err(Some(8)));
    assert_eq!(a.slots[0].info, Some(7));
    assert_eq!(a.reserve_existing(0), Ok((16, Some(7))));
    assert_eq!(a.slots[0].state, SlotState::Reserved);
    assert_eq!(a.slots[0].info, None);
    assert_eq!(a.reserve_existing(0), Err(BinderError::BadArg));
}

#[test]
fn allocator_hands_out_committed_slots_in_address_order() {
    let mut a: RangeAllocator<u32> = RangeAllocator::new(64);
    a.reserve_new(8).unwrap();
    a.reserve_new(8).unwrap();
    a.reserve_new(8).unwrap();
    a.reservation_commit(16, Some(3)).unwrap();
    a.reservation_commit(0, None).unwrap();
    let got: Vec<(usize, usize, Option<u32>)> =
        a.into_committed().into_iter().map(|c: CommittedSlot<u32>| (c.offset, c.size, c.info)).collect();
    assert_eq!(got, vec![(0, 8, None), (16, 8, Some(3))]);
}

#[test]
fn mapping_bytes_can_be_written_read_and_cleared() {
    let mut m = Mapping::new(0x1000, 16);
    assert_eq!(m.pages, vec![0u8; 16]);
    assert!(m.write(4, b"abcd"));
    assert_eq!(m.read(3, 6), Some(vec![0, b'a', b'b', b'c', b'd', 0]));
    assert!(!m.write(14, b"abc"));
    assert_eq!(m.read(14, 3), None);
    assert_eq!(m.read(16, 0), Some(Vec::new()));
    assert!(m.clear(5, 2));
    assert_eq!(m.read(4, 4), Some(vec![b'a', 0, 0, b'd']));
    assert!(!m.clear(17, 0));
}

fn process_with_arena(size: usize) -> (Binder, usize) {
    let mut b = Binder::new();
    let c = b.create_context(b"binder".to_vec());
    let p = b.open(c, 10, 0);
    b.mmap(p, 10, 0x1000, 0x1000 + size, false).unwrap();
    (b, p)
}

#[test]
fn mmap_checks_its_arguments() {
    let mut b = Binder::new();
    let c = b.create_context(b"binder".to_vec());
    let p = b.open(c, 10, 0);
    assert_eq!(b.mmap(p, 11, 0x1000, 0x2000, false), Err(BinderError::BadArg));
    assert_eq!(b.mmap(p, 10, 0, 0x2000, false), Err(BinderError::BadArg));
    assert_eq!(b.mmap(p, 10, 0x2000, 0x1000, false), Err(BinderError::BadArg));
    assert_eq!(b.mmap(p, 10, 0x1000, 0x2000, true), Err(BinderError::Perm));
    assert!(b.procs[p].inner.mapping.is_none());
    assert_eq!(b.mmap(p, 10, 0x1000, 0x2000, false), Ok(()));
    // The arena is installed once.
    assert_eq!(b.mmap(p, 10, 0x1000, 0x2000, false), Err(BinderError::Busy));
    let m = b.procs[p].inner.mapping.as_ref().unwrap();
    assert_eq!((m.address, m.alloc.size, m.pages.len()), (0x1000, 0x1000, 0x1000));
}

#[test]
fn mmap_clamps_the_arena_to_four_mebibytes() {
    let mut b = Binder::new();
    let c = b.create_context(b"binder".to_vec());
    let p = b.open(c, 10, 0);
    assert_eq!(MAX_MAPPING_SIZE, 4 * 1024 * 1024);
    b.mmap(p, 10, 0x1000, 0x1000 + MAX_MAPPING_SIZE + 0x1000, false).unwrap();
    assert_eq!(b.procs[p].inner.mapping.as_ref().unwrap().alloc.size, MAX_MAPPING_SIZE);
}

#[test]
fn buffer_alloc_without_arena_is_dead() {
    let mut b = Binder::new();
    let c = b.create_context(b"binder".to_vec());
    let p = b.open(c, 10, 0);
    assert_eq!(b.buffer_alloc(p, 8).unwrap_err(), BinderError::Dead);
    assert!(b.buffer_get(p, 0x1000).is_none());
}

#[test]
fn buffer_alloc_boundaries() {
    let (mut b, p) = process_with_arena(64);
    let zero = b.buffer_alloc(p, 0).unwrap();
    assert_eq!((zero.offset, zero.size, zero.ptr), (0, 0, 0x1000));
    assert_eq!(b.buffer_alloc(p, 65).unwrap_err(), BinderError::NoMem);
    let all = b.buffer_alloc(p, 64).unwrap();
    assert_eq!((all.offset, all.size, all.ptr), (0, 64, 0x1000));
    assert_eq!(b.buffer_alloc(p, 1).unwrap_err(), BinderError::NoMem);
}

#[test]
fn buffer_is_found_only_after_commit() {
    let (mut b, p) = process_with_arena(64);
    b.buffer_alloc(p, 8).unwrap();
    let a = b.buffer_alloc(p, 8).unwrap();
    assert_eq!(a.ptr, 0x1008);
    assert!(b.buffer_get(p, a.ptr).is_none());
    let info = AllocationInfo { offsets: None, target_node: None, oneway_node: None, clear_on_free: true };
    b.buffer_make_freeable(p, a.offset, Some(info));
    // An address below the arena or inside a buffer names nothing.
    assert!(b.buffer_get(p, 0xfff).is_none());
    assert!(b.buffer_get(p, a.ptr + 1).is_none());
    let got = b.buffer_get(p, a.ptr).unwrap();
    assert_eq!((got.offset, got.size, got.ptr), (8, 8, 0x1008));
    assert!(got.info.unwrap().clear_on_free);
    assert!(b.buffer_get(p, a.ptr).is_none());
    b.buffer_raw_free(p, a.ptr);
    b.buffer_raw_free(p, 0x1000);
    let m = b.procs[p].inner.mapping.as_ref().unwrap();
    assert_eq!(m.alloc.slots.len(), 1);
}

#[test]
fn commit_without_reservation_gives_the_reference_up() {
    let (mut b, p) = process_with_arena(64);
    let r = b.get_node(p, 1, 2, 0, true, None).unwrap();
    let n = r.node;
    assert_eq!(b.nodes[n].inner.strong.count, 1);
    let info = AllocationInfo { offsets: None, target_node: Some(r), oneway_node: None, clear_on_free: false };
    b.buffer_make_freeable(p, 32, Some(info));
    assert_eq!(b.nodes[n].inner.strong.count, 0);
}

#[test]
fn free_buffer_of_unknown_address_changes_nothing() {
    let (mut b, p) = process_with_arena(64);
    b.free_buffer(p, 0x1000);
    b.free_buffer(p, 0);
    let m = b.procs[p].inner.mapping.as_ref().unwrap();
    assert_eq!(m.alloc.slots.len(), 1);
}

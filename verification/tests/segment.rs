//! Segment lifecycle against the facility model: creation, mapping,
//! release, and the resource accounting they must leave behind.

use breadx_shm::{SegmentAllocator, ShmBlock, ShmError, ShmTransport};

#[test]
fn create_then_release_leaves_no_resource() {
    for len in [1usize, 16, 4096, 16384] {
        let mut os = SegmentAllocator::new(100_000, 8);
        let block = ShmBlock::new(&mut os, len).unwrap();
        assert_eq!(os.used_bytes(), len);
        assert_eq!(os.live_count(), 1);
        assert_eq!(os.free_slots(), 7);
        block.release(&mut os);
        assert_eq!(os.used_bytes(), 0);
        assert_eq!(os.live_count(), 0);
        assert_eq!(os.free_slots(), 8);
    }
}

#[test]
fn fresh_segment_is_zeroed_and_unshared() {
    let mut os = SegmentAllocator::new(1000, 4);
    let block = ShmBlock::new(&mut os, 12).unwrap();
    assert_eq!(block.len(), 12);
    assert!(!block.is_empty());
    assert!(!block.is_shared());
    assert!(block.as_bytes().iter().all(|b| *b == 0));
    block.release(&mut os);
}

#[test]
fn identifiers_are_distinct_and_live() {
    let mut os = SegmentAllocator::new(1000, 4);
    let a = ShmBlock::new(&mut os, 8).unwrap();
    let b = ShmBlock::new(&mut os, 8).unwrap();
    assert_ne!(a.shm_id(), b.shm_id());
    assert!(os.is_live(a.shm_id()));
    assert!(os.is_live(b.shm_id()));
    let a_id = a.shm_id();
    a.release(&mut os);
    assert!(!os.is_live(a_id));
    assert!(os.is_live(b.shm_id()));
    b.release(&mut os);
}

#[test]
fn allocation_error_when_facility_is_exhausted() {
    let mut os = SegmentAllocator::new(10, 4);
    match ShmBlock::new(&mut os, 11) {
        Err(ShmError::AllocationError) => {}
        _ => panic!("an oversized request must be refused"),
    }
    assert_eq!(os.used_bytes(), 0);
    assert_eq!(os.live_count(), 0);
}

#[test]
fn allocation_error_for_empty_request() {
    let mut os = SegmentAllocator::new(10, 4);
    match ShmBlock::new(&mut os, 0) {
        Err(ShmError::AllocationError) => {}
        _ => panic!("a zero-length request must be refused"),
    }
}

#[test]
fn map_error_destroys_the_allocation() {
    let mut os = SegmentAllocator::new(1000, 0);
    match ShmBlock::new(&mut os, 64) {
        Err(ShmError::MapError) => {}
        _ => panic!("mapping must fail with no slots left"),
    }
    assert_eq!(os.used_bytes(), 0);
    assert_eq!(os.live_count(), 0);
}

#[test]
fn write_at_changes_one_byte() {
    let mut os = SegmentAllocator::new(1000, 4);
    let mut block = ShmBlock::new(&mut os, 4).unwrap();
    block.write_at(2, 0xab).unwrap();
    assert_eq!(block.as_bytes().as_slice(), &[0, 0, 0xab, 0]);
    assert!(matches!(
        block.write_at(4, 1),
        Err(ShmError::PreconditionViolation)
    ));
    block.release(&mut os);
}

#[test]
fn store_replaces_the_region() {
    let mut os = SegmentAllocator::new(1000, 4);
    let mut block = ShmBlock::new(&mut os, 3).unwrap();
    block.store(&vec![7, 8, 9]).unwrap();
    assert_eq!(block.as_bytes().as_slice(), &[7, 8, 9]);
    assert!(matches!(
        block.store(&vec![1, 2]),
        Err(ShmError::PreconditionViolation)
    ));
    assert_eq!(block.as_bytes().as_slice(), &[7, 8, 9]);
    block.release(&mut os);
}

#[test]
fn transport_release_restores_the_facility() {
    let mut os = SegmentAllocator::new(1000, 4);
    let t = ShmTransport::new(&mut os, 32).unwrap();
    assert_eq!(os.used_bytes(), 32);
    t.release(&mut os);
    assert_eq!(os.used_bytes(), 0);
    assert_eq!(os.live_count(), 0);
}

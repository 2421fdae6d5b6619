//! The shadowed transport's two synchronization operations and their
//! round-trip law.

use breadx_shm::{SegmentAllocator, ShmError, ShmTransport};

fn pattern(len: usize) -> Vec<u8> {
    let mut v = Vec::with_capacity(len);
    for i in 0..len {
        v.push((i % 251) as u8);
    }
    v
}

#[test]
fn push_then_pull_is_a_round_trip() {
    let mut os = SegmentAllocator::new(1000, 4);
    let mut t = ShmTransport::new(&mut os, 40).unwrap();
    let p = pattern(40);
    t.fill(&p).unwrap();
    t.publish().unwrap();
    t.repopulate();
    assert_eq!(t.as_bytes().as_slice(), p.as_slice());
    t.release(&mut os);
}

#[test]
fn pull_recovers_what_was_pushed() {
    let mut os = SegmentAllocator::new(1000, 4);
    let mut t = ShmTransport::new(&mut os, 8).unwrap();
    let p = pattern(8);
    t.fill(&p).unwrap();
    t.publish().unwrap();
    // scribble over the private buffer, then pull the region back
    t.fill(&vec![0xff; 8]).unwrap();
    assert_ne!(t.as_bytes().as_slice(), p.as_slice());
    t.repopulate();
    assert_eq!(t.as_bytes().as_slice(), p.as_slice());
    t.release(&mut os);
}

#[test]
fn publish_reaches_the_region_only() {
    let mut os = SegmentAllocator::new(1000, 4);
    let mut t = ShmTransport::new(&mut os, 4).unwrap();
    t.write_at(1, 0x5a).unwrap();
    assert_eq!(t.segment_bytes().as_slice(), &[0, 0, 0, 0]);
    t.publish().unwrap();
    assert_eq!(t.segment_bytes().as_slice(), &[0, 0x5a, 0, 0]);
    t.release(&mut os);
}

#[test]
fn fill_rejects_a_length_mismatch() {
    let mut os = SegmentAllocator::new(1000, 4);
    let mut t = ShmTransport::new(&mut os, 4).unwrap();
    assert!(matches!(
        t.fill(&vec![1, 2, 3]),
        Err(ShmError::PreconditionViolation)
    ));
    assert_eq!(t.as_bytes().as_slice(), &[0, 0, 0, 0]);
    t.release(&mut os);
}

#[test]
fn into_inner_keeps_the_private_buffer() {
    let mut os = SegmentAllocator::new(1000, 4);
    let mut t = ShmTransport::new(&mut os, 3).unwrap();
    t.fill(&vec![4, 5, 6]).unwrap();
    let buf = t.into_inner(&mut os);
    assert_eq!(buf, vec![4, 5, 6]);
    assert_eq!(os.used_bytes(), 0);
    assert_eq!(os.live_count(), 0);
}

#[test]
fn transport_lengths_always_agree() {
    let mut os = SegmentAllocator::new(1000, 4);
    let t = ShmTransport::new(&mut os, 17).unwrap();
    assert_eq!(t.len(), 17);
    assert_eq!(t.as_bytes().len(), 17);
    assert_eq!(t.segment_bytes().len(), 17);
    t.release(&mut os);
}

//! The completion handshake: demultiplexing of notifications across
//! concurrent transfers, event forwarding, and the detach precondition.

use breadx_shm::{
    begin_get, begin_put, classify, complete_put, finish_get, handle_event, EventDisposition,
    PeerEvent, RegionDesc, SegmentAllocator, SegmentRegistry, ShmBuffer, ShmError, ShmSegment,
};

fn region() -> RegionDesc {
    RegionDesc {
        src_x: 0,
        src_y: 0,
        width: 8,
        height: 8,
        dest_x: 0,
        dest_y: 0,
        depth: 24,
        format: 2,
    }
}

#[test]
fn classify_matches_by_identifier_only() {
    assert_eq!(
        classify(&PeerEvent::Completion { seg_id: 5 }, 5),
        EventDisposition::CompletesTarget
    );
    assert_eq!(
        classify(&PeerEvent::Completion { seg_id: 6 }, 5),
        EventDisposition::ReleasesOther { seg_id: 6 }
    );
    assert_eq!(
        classify(&PeerEvent::Other { tag: 5 }, 5),
        EventDisposition::PassThrough
    );
}

#[test]
fn put_claims_the_segment_and_mutation_is_refused() {
    let mut os = SegmentAllocator::new(100_000, 8);
    let mut reg = SegmentRegistry::new();
    let seg = ShmSegment::attach(&mut os, &mut reg, 10, 64).unwrap();
    reg.write_at(10, 0, 1).unwrap();
    let q = begin_put(&mut reg, 10, region(), true).unwrap();
    assert_eq!(q.seg_id, 10);
    assert!(q.notify);
    assert_eq!(reg.is_shared(10), Ok(true));
    // while the peer holds its claim, every mutation path must fail loudly
    assert!(matches!(
        reg.write_at(10, 0, 2),
        Err(ShmError::PreconditionViolation)
    ));
    assert!(matches!(
        reg.store(10, &vec![0; 64]),
        Err(ShmError::PreconditionViolation)
    ));
    // a second put on the same segment is refused too
    assert!(matches!(
        begin_put(&mut reg, 10, region(), true),
        Err(ShmError::PreconditionViolation)
    ));
    // completion releases the claim and mutation works again
    let mut sink = Vec::new();
    assert!(handle_event(
        &mut reg,
        10,
        &PeerEvent::Completion { seg_id: 10 },
        &mut sink
    ));
    assert_eq!(reg.is_shared(10), Ok(false));
    reg.write_at(10, 0, 2).unwrap();
    let block = seg.detach(&mut reg).unwrap();
    block.release(&mut os);
}

#[test]
fn interleaved_completions_release_exactly_their_segments() {
    let mut os = SegmentAllocator::new(100_000, 8);
    let mut reg = SegmentRegistry::new();
    let s1 = ShmSegment::attach(&mut os, &mut reg, 1, 16).unwrap();
    let s2 = ShmSegment::attach(&mut os, &mut reg, 2, 16).unwrap();
    let s3 = ShmSegment::attach(&mut os, &mut reg, 3, 16).unwrap();
    begin_put(&mut reg, 1, region(), true).unwrap();
    begin_put(&mut reg, 2, region(), true).unwrap();
    begin_put(&mut reg, 3, region(), true).unwrap();
    assert_eq!(reg.is_shared(1), Ok(true));
    assert_eq!(reg.is_shared(2), Ok(true));
    assert_eq!(reg.is_shared(3), Ok(true));

    // deliver the notifications in reverse order while waiting on 1
    let mut sink = Vec::new();
    let done = handle_event(&mut reg, 1, &PeerEvent::Completion { seg_id: 3 }, &mut sink);
    assert!(!done);
    assert_eq!(reg.is_shared(3), Ok(false));
    assert_eq!(reg.is_shared(2), Ok(true));
    assert_eq!(reg.is_shared(1), Ok(true));

    let done = handle_event(&mut reg, 1, &PeerEvent::Completion { seg_id: 2 }, &mut sink);
    assert!(!done);
    assert_eq!(reg.is_shared(2), Ok(false));
    assert_eq!(reg.is_shared(1), Ok(true));

    let done = handle_event(&mut reg, 1, &PeerEvent::Completion { seg_id: 1 }, &mut sink);
    assert!(done);
    assert_eq!(reg.is_shared(1), Ok(false));

    // the two foreign completions were forwarded, in arrival order
    assert_eq!(
        sink,
        vec![
            PeerEvent::Completion { seg_id: 3 },
            PeerEvent::Completion { seg_id: 2 },
        ]
    );

    for s in [s1, s2, s3] {
        let block = s.detach(&mut reg).unwrap();
        block.release(&mut os);
    }
    assert_eq!(os.used_bytes(), 0);
}

#[test]
fn foreign_events_are_forwarded_once_in_order() {
    let mut os = SegmentAllocator::new(100_000, 8);
    let mut reg = SegmentRegistry::new();
    ShmSegment::attach(&mut os, &mut reg, 4, 16).unwrap();
    begin_put(&mut reg, 4, region(), true).unwrap();
    let events = vec![
        PeerEvent::Other { tag: 100 },
        PeerEvent::Other { tag: 200 },
        PeerEvent::Completion { seg_id: 4 },
        PeerEvent::Other { tag: 300 },
    ];
    let mut sink = Vec::new();
    let consumed = complete_put(&mut reg, 4, &events, &mut sink).unwrap();
    assert_eq!(consumed, 3);
    assert_eq!(
        sink,
        vec![PeerEvent::Other { tag: 100 }, PeerEvent::Other { tag: 200 }]
    );
    assert_eq!(reg.is_shared(4), Ok(false));
}

#[test]
fn a_wait_without_its_completion_reports_the_transport() {
    let mut os = SegmentAllocator::new(100_000, 8);
    let mut reg = SegmentRegistry::new();
    ShmSegment::attach(&mut os, &mut reg, 5, 16).unwrap();
    ShmSegment::attach(&mut os, &mut reg, 6, 16).unwrap();
    begin_put(&mut reg, 5, region(), true).unwrap();
    begin_put(&mut reg, 6, region(), true).unwrap();
    let events = vec![
        PeerEvent::Other { tag: 1 },
        PeerEvent::Completion { seg_id: 6 },
    ];
    let mut sink = Vec::new();
    let r = complete_put(&mut reg, 5, &events, &mut sink);
    assert!(matches!(r, Err(ShmError::TransportError)));
    // everything was still delivered and forwarded
    assert_eq!(sink, events);
    assert_eq!(reg.is_shared(6), Ok(false));
    assert_eq!(reg.is_shared(5), Ok(true));
}

#[test]
fn detach_in_flight_is_a_precondition_violation() {
    let mut os = SegmentAllocator::new(100_000, 8);
    let mut reg = SegmentRegistry::new();
    let seg = ShmSegment::attach(&mut os, &mut reg, 7, 16).unwrap();
    begin_put(&mut reg, 7, region(), true).unwrap();
    let seg = match seg.detach(&mut reg) {
        Err((seg, ShmError::PreconditionViolation)) => seg,
        _ => panic!("detach during an in-flight put must be rejected"),
    };
    assert!(reg.is_attached(7));
    // after the completion the same detach goes through
    let mut sink = Vec::new();
    handle_event(&mut reg, 7, &PeerEvent::Completion { seg_id: 7 }, &mut sink);
    let block = seg.detach(&mut reg).unwrap();
    assert!(!reg.is_attached(7));
    block.release(&mut os);
}

#[test]
fn duplicate_identifier_is_a_protocol_error() {
    let mut os = SegmentAllocator::new(100_000, 8);
    let mut reg = SegmentRegistry::new();
    ShmSegment::attach(&mut os, &mut reg, 8, 16).unwrap();
    let used = os.used_bytes();
    match ShmSegment::attach(&mut os, &mut reg, 8, 16) {
        Err(ShmError::ProtocolError) => {}
        _ => panic!("a duplicate identifier must be refused"),
    }
    assert_eq!(os.used_bytes(), used);
    assert_eq!(reg.attached_count(), 1);
}

#[test]
fn operations_on_unknown_identifiers_are_protocol_errors() {
    let mut reg = SegmentRegistry::new();
    assert!(matches!(
        begin_put(&mut reg, 9, region(), true),
        Err(ShmError::ProtocolError)
    ));
    assert!(matches!(reg.write_at(9, 0, 0), Err(ShmError::ProtocolError)));
    assert!(matches!(reg.is_shared(9), Err(ShmError::ProtocolError)));
    assert!(matches!(finish_get(&mut reg, 9), Err(ShmError::ProtocolError)));
}

#[test]
fn get_runs_only_on_peer_writable_segments() {
    let mut os = SegmentAllocator::new(100_000, 8);
    let mut reg = SegmentRegistry::new();
    ShmSegment::attach(&mut os, &mut reg, 11, 16).unwrap();
    let buf = ShmBuffer::attach(&mut os, &mut reg, 12, 4).unwrap();
    // a send segment is read-only to the peer: no get on it
    assert!(matches!(
        begin_get(&mut reg, 11, region(), !0),
        Err(ShmError::ProtocolError)
    ));
    // on the receive transport the whole get cycle goes through
    let q = begin_get(&mut reg, 12, region(), !0).unwrap();
    assert_eq!(q.seg_id, 12);
    assert_eq!(reg.is_shared(12), Ok(true));
    // the peer writes the region as a side effect of the request
    reg.peer_store(12, &vec![9, 9, 9, 9]).unwrap();
    finish_get(&mut reg, 12).unwrap();
    assert_eq!(reg.is_shared(12), Ok(false));
    // the reply does not pull: the private buffer still holds zeros
    assert_eq!(reg.as_bytes(12).unwrap().as_slice(), &[0, 0, 0, 0]);
    buf.repopulate(&mut reg).unwrap();
    assert_eq!(reg.as_bytes(12).unwrap().as_slice(), &[9, 9, 9, 9]);
}

#[test]
fn peer_cannot_write_a_read_only_segment() {
    let mut os = SegmentAllocator::new(100_000, 8);
    let mut reg = SegmentRegistry::new();
    ShmSegment::attach(&mut os, &mut reg, 13, 4).unwrap();
    assert!(matches!(
        reg.peer_store(13, &vec![1, 2, 3, 4]),
        Err(ShmError::ProtocolError)
    ));
}

#[test]
fn finish_get_without_a_get_is_a_precondition_violation() {
    let mut os = SegmentAllocator::new(100_000, 8);
    let mut reg = SegmentRegistry::new();
    ShmBuffer::attach(&mut os, &mut reg, 14, 4).unwrap();
    assert!(matches!(
        finish_get(&mut reg, 14),
        Err(ShmError::PreconditionViolation)
    ));
}

#[test]
fn a_put_without_notification_never_becomes_safe() {
    let mut os = SegmentAllocator::new(100_000, 8);
    let mut reg = SegmentRegistry::new();
    let seg = ShmSegment::attach(&mut os, &mut reg, 15, 8).unwrap();
    begin_put(&mut reg, 15, region(), false).unwrap();
    // no notification will come, so the claim stays and so do the guards
    assert_eq!(reg.is_shared(15), Ok(true));
    assert!(matches!(
        reg.write_at(15, 0, 1),
        Err(ShmError::PreconditionViolation)
    ));
    assert!(matches!(
        seg.detach(&mut reg),
        Err((_, ShmError::PreconditionViolation))
    ));
}

#[test]
fn a_completion_for_an_unknown_segment_is_only_forwarded() {
    let mut os = SegmentAllocator::new(100_000, 8);
    let mut reg = SegmentRegistry::new();
    ShmSegment::attach(&mut os, &mut reg, 16, 8).unwrap();
    begin_put(&mut reg, 16, region(), true).unwrap();
    let mut sink = Vec::new();
    let done = handle_event(
        &mut reg,
        16,
        &PeerEvent::Completion { seg_id: 999 },
        &mut sink,
    );
    assert!(!done);
    assert_eq!(sink, vec![PeerEvent::Completion { seg_id: 999 }]);
    assert_eq!(reg.is_shared(16), Ok(true));
    assert_eq!(reg.attached_count(), 1);
}

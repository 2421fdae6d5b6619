//! The whole send path in one sitting: a 64 by 64 pixel buffer at four
//! bytes per pixel, pushed, put, completed, and released.

use breadx_shm::{
    begin_put, complete_put, PeerEvent, RegionDesc, SegmentAllocator, SegmentRegistry, ShmBuffer,
};

#[test]
fn sixty_four_square_buffer_full_cycle() {
    let len = 64 * 64 * 4;
    assert_eq!(len, 16_384);
    let mut os = SegmentAllocator::new(1 << 20, 16);
    let mut reg = SegmentRegistry::new();

    // create the transport and register it under a fresh identifier
    let buf = ShmBuffer::attach(&mut os, &mut reg, 77, len).unwrap();
    assert_eq!(os.used_bytes(), len);

    // fill the private buffer with a fixed repeating pattern
    let mut pattern = Vec::with_capacity(len);
    for i in 0..len {
        pattern.push([0xde, 0xad, 0xbe, 0xef][i % 4]);
    }
    reg.store(77, &pattern).unwrap();

    // push it into the shared region
    buf.publish(&mut reg).unwrap();
    assert_eq!(reg.region_bytes(77).unwrap().as_slice(), pattern.as_slice());

    // issue the put with a completion requested
    let q = begin_put(
        &mut reg,
        77,
        RegionDesc {
            src_x: 0,
            src_y: 0,
            width: 64,
            height: 64,
            dest_x: 0,
            dest_y: 0,
            depth: 32,
            format: 2,
        },
        true,
    )
    .unwrap();
    assert!(q.notify);
    assert_eq!(reg.is_shared(77), Ok(true));

    // synthesize the peer's completion notification for that identifier
    let events = vec![PeerEvent::Completion { seg_id: 77 }];
    let mut sink = Vec::new();
    let consumed = complete_put(&mut reg, 77, &events, &mut sink).unwrap();
    assert_eq!(consumed, 1);
    assert!(sink.is_empty());

    // the wait returned and the segment is marked unshared again
    assert_eq!(reg.is_shared(77), Ok(false));

    // tear everything down; the facility ends where it started
    let transport = buf.detach(&mut reg).unwrap();
    transport.release(&mut os);
    assert_eq!(os.used_bytes(), 0);
    assert_eq!(os.live_count(), 0);
}

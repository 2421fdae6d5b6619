//! Shared-memory segments and the shadowed transport over them.
//!
//! A `ShmBlock` owns one segment of the facility for its whole lifetime:
//! created and mapped together, unmapped and destroyed together, exactly
//! once, by consuming the block.  Its `shared` flag records whether the
//! remote peer currently holds a claim on the region; while it is set,
//! in-process mutation through the block is refused rather than raced.
//!
//! A `ShmTransport` pairs such a segment with a private, process-owned
//! buffer of the same length.  Application code touches only the private
//! buffer; the region is read and written solely by the two whole-buffer
//! copies `repopulate` (region to private) and `publish` (private to
//! region), the single choke points where peer-visible memory is crossed.

use vstd::prelude::*;

use crate::ShmError;
use crate::os::{AllocatorModel, SegmentAllocator, has_id, idx_of};

verus! {

/// The mathematical state of a segment.
#[verifier::ext_equal]
pub struct BlockModel {
    /// The facility-level identifier of the segment.
    pub shm_id: int,
    /// The bytes of the mapped region.
    pub mem: Seq<u8>,
    /// Whether the peer currently holds a read or write claim.
    pub shared: bool,
    /// Whether the segment was created with peer write access.
    pub peer_writable: bool,
}

/// The mathematical state of a shadowed transport.
#[verifier::ext_equal]
pub struct TransportModel {
    /// The private, process-owned buffer.
    pub private_buf: Seq<u8>,
    /// The segment behind it.
    pub segment: BlockModel,
}

/// Every byte is zero, as the facility hands fresh regions out.
pub open spec fn all_zero(s: Seq<u8>) -> bool {
    forall|i: int| 0 <= i < s.len() ==> s[i] == 0
}

impl TransportModel {
    /// Private buffer and region always have the same length.
    pub open spec fn wf(self) -> bool {
        self.private_buf.len() == self.segment.mem.len()
    }

    /// The transport after `publish`: the region holds the private bytes.
    pub open spec fn publish_t(self) -> TransportModel {
        TransportModel {
            segment: BlockModel { mem: self.private_buf, ..self.segment },
            ..self
        }
    }

    /// The transport after `repopulate`: the private buffer holds the
    /// region's bytes.
    pub open spec fn repopulate_t(self) -> TransportModel {
        TransportModel { private_buf: self.segment.mem, ..self }
    }
}

/// Round trip: on an unshared transport, `publish` followed by
/// `repopulate` leaves the private buffer exactly as it was, and the
/// region agreeing with it, given no peer interference between the calls.
pub proof fn lemma_publish_then_repopulate(t: TransportModel)
    requires
        !t.segment.shared,
    ensures
        t.publish_t().repopulate_t().private_buf == t.private_buf,
        t.publish_t().repopulate_t().segment == t.publish_t().segment,
{
}

/// Copy `src` over `dst`, which must already have the same length.
fn copy_into(dst: &mut Vec<u8>, src: &Vec<u8>)
    requires
        old(dst)@.len() == src@.len(),
    ensures
        final(dst)@ == src@,
{
    let n: usize = src.len();
    let mut i: usize = 0;
    while i < n
        invariant
            n == src@.len(),
            dst@.len() == n,
            0 <= i <= n,
            forall|j: int| 0 <= j < i ==> dst@[j] == src@[j],
        decreases n - i,
    {
        let b: u8 = src[i];
        dst.set(i, b);
        i = i + 1;
    }
    proof {
        assert(dst@ =~= src@);
    }
}

/// A vector of `len` zero bytes.
fn zero_vec(len: usize) -> (r: Vec<u8>)
    ensures
        r@.len() == len,
        all_zero(r@),
{
    let mut v: Vec<u8> = Vec::new();
    let mut i: usize = 0;
    while i < len
        invariant
            0 <= i <= len,
            v@.len() == i,
            all_zero(v@),
        decreases len - i,
    {
        v.push(0);
        i = i + 1;
    }
    v
}

/// One segment of the shared-memory facility, owned for the lifetime of
/// the value: releasing it is the only way to give the region back, and
/// consuming `self` makes a double release impossible.
pub struct ShmBlock {
    shm_id: i32,
    mem: Vec<u8>,
    shared: bool,
    peer_writable: bool,
}

impl View for ShmBlock {
    type V = BlockModel;

    closed spec fn view(&self) -> BlockModel {
        BlockModel {
            shm_id: self.shm_id as int,
            mem: self.mem@,
            shared: self.shared,
            peer_writable: self.peer_writable,
        }
    }
}

impl ShmBlock {
    /// Create a segment of `len` bytes with the given peer access, map it,
    /// and on a mapping failure destroy the allocation again before
    /// reporting the error, so that nothing leaks.
    pub(crate) fn with_flags(os: &mut SegmentAllocator, len: usize, peer_writable: bool) -> (r:
        Result<ShmBlock, ShmError>)
        requires
            old(os)@.wf(),
        ensures
            final(os)@.wf(),
            !old(os)@.can_alloc(len) ==> r == Err::<ShmBlock, ShmError>(
                ShmError::AllocationError,
            ) && final(os)@ == old(os)@,
            old(os)@.can_alloc(len) && !old(os)@.alloc_t(len).can_map(
                old(os)@.next_id as i32,
            ) ==> r == Err::<ShmBlock, ShmError>(ShmError::MapError) && final(os)@
                == (AllocatorModel { next_id: old(os)@.next_id + 1, ..old(os)@ }),
            old(os)@.can_alloc(len) && old(os)@.alloc_t(len).can_map(old(os)@.next_id as i32)
                ==> ({
                &&& r is Ok
                &&& r->Ok_0@ == (BlockModel {
                    shm_id: old(os)@.next_id,
                    mem: r->Ok_0@.mem,
                    shared: false,
                    peer_writable,
                })
                &&& r->Ok_0@.mem.len() == len
                &&& all_zero(r->Ok_0@.mem)
                &&& final(os)@ == old(os)@.alloc_t(len).map_t(old(os)@.next_id as i32)
            }),
    {
        let id: i32 = match os.allocate(len) {
            Ok(id) => id,
            Err(e) => {
                return Err(e);
            },
        };
        match os.map_segment(id) {
            Ok(_) => Ok(
                ShmBlock { shm_id: id, mem: zero_vec(len), shared: false, peer_writable },
            ),
            Err(_) => {
                os.destroy(id);
                proof {
                    lemma_alloc_then_destroy(old(os)@, len);
                }
                Err(ShmError::MapError)
            },
        }
    }

    /// Create a segment of `len` bytes that the peer may only read.
    pub fn new(os: &mut SegmentAllocator, len: usize) -> (r: Result<ShmBlock, ShmError>)
        requires
            old(os)@.wf(),
        ensures
            final(os)@.wf(),
            !old(os)@.can_alloc(len) ==> r == Err::<ShmBlock, ShmError>(
                ShmError::AllocationError,
            ) && final(os)@ == old(os)@,
            old(os)@.can_alloc(len) && !old(os)@.alloc_t(len).can_map(
                old(os)@.next_id as i32,
            ) ==> r == Err::<ShmBlock, ShmError>(ShmError::MapError) && final(os)@
                == (AllocatorModel { next_id: old(os)@.next_id + 1, ..old(os)@ }),
            old(os)@.can_alloc(len) && old(os)@.alloc_t(len).can_map(old(os)@.next_id as i32)
                ==> ({
                &&& r is Ok
                &&& r->Ok_0@ == (BlockModel {
                    shm_id: old(os)@.next_id,
                    mem: r->Ok_0@.mem,
                    shared: false,
                    peer_writable: false,
                })
                &&& r->Ok_0@.mem.len() == len
                &&& all_zero(r->Ok_0@.mem)
                &&& final(os)@ == old(os)@.alloc_t(len).map_t(old(os)@.next_id as i32)
            }),
    {
        Self::with_flags(os, len, false)
    }

    /// Unmap and destroy the segment.  Consuming `self` makes this run
    /// exactly once.
    pub fn release(self, os: &mut SegmentAllocator)
        requires
            old(os)@.wf(),
        ensures
            final(os)@.wf(),
            final(os)@ == old(os)@.destroy_t(self@.shm_id as i32),
    {
        os.destroy(self.shm_id);
    }

    /// The facility-level identifier of the segment.
    pub fn shm_id(&self) -> (r: i32)
        ensures
            r == self@.shm_id,
    {
        self.shm_id
    }

    /// The length of the region in bytes.
    pub fn len(&self) -> (r: usize)
        ensures
            r == self@.mem.len(),
    {
        self.mem.len()
    }

    /// Whether the region is empty.
    pub fn is_empty(&self) -> (r: bool)
        ensures
            r == (self@.mem.len() == 0),
    {
        self.mem.len() == 0
    }

    /// Whether the peer currently holds a claim on the region.
    pub fn is_shared(&self) -> (r: bool)
        ensures
            r == self@.shared,
    {
        self.shared
    }

    /// Whether the segment grants the peer write access.
    pub fn is_peer_writable(&self) -> (r: bool)
        ensures
            r == self@.peer_writable,
    {
        self.peer_writable
    }

    /// Read access to the region's bytes.
    pub fn as_bytes(&self) -> (r: &Vec<u8>)
        ensures
            r@ == self@.mem,
    {
        &self.mem
    }

    /// Write one byte of the region.  Refused while the peer holds a
    /// claim, and for a position outside the region.
    pub fn write_at(&mut self, i: usize, b: u8) -> (r: Result<(), ShmError>)
        ensures
            old(self)@.shared ==> r == Err::<(), ShmError>(ShmError::PreconditionViolation)
                && final(self)@ == old(self)@,
            !old(self)@.shared && i >= old(self)@.mem.len() ==> r == Err::<(), ShmError>(
                ShmError::PreconditionViolation,
            ) && final(self)@ == old(self)@,
            !old(self)@.shared && i < old(self)@.mem.len() ==> r == Ok::<(), ShmError>(())
                && final(self)@ == (BlockModel {
                mem: old(self)@.mem.update(i as int, b),
                ..old(self)@
            }),
    {
        if self.shared {
            return Err(ShmError::PreconditionViolation);
        }
        if i >= self.mem.len() {
            return Err(ShmError::PreconditionViolation);
        }
        self.mem.set(i, b);
        Ok(())
    }

    /// Overwrite the whole region.  Refused while the peer holds a claim,
    /// and for data whose length differs from the region's.
    pub fn store(&mut self, data: &Vec<u8>) -> (r: Result<(), ShmError>)
        ensures
            old(self)@.shared ==> r == Err::<(), ShmError>(ShmError::PreconditionViolation)
                && final(self)@ == old(self)@,
            !old(self)@.shared && data@.len() != old(self)@.mem.len() ==> r == Err::<(), ShmError>(
                ShmError::PreconditionViolation,
            ) && final(self)@ == old(self)@,
            !old(self)@.shared && data@.len() == old(self)@.mem.len() ==> r == Ok::<(), ShmError>(
                (),
            ) && final(self)@ == (BlockModel { mem: data@, ..old(self)@ }),
    {
        if self.shared {
            return Err(ShmError::PreconditionViolation);
        }
        if data.len() != self.mem.len() {
            return Err(ShmError::PreconditionViolation);
        }
        copy_into(&mut self.mem, data);
        Ok(())
    }

    /// A write by the peer process.  The model admits it whenever the
    /// segment grants the peer write access, whether or not a transfer is
    /// under way: the peer is outside this process's control.
    pub(crate) fn peer_write(&mut self, data: &Vec<u8>) -> (r: Result<(), ShmError>)
        ensures
            !old(self)@.peer_writable ==> r == Err::<(), ShmError>(ShmError::ProtocolError)
                && final(self)@ == old(self)@,
            old(self)@.peer_writable && data@.len() != old(self)@.mem.len() ==> r == Err::<
                (),
                ShmError,
            >(ShmError::ProtocolError) && final(self)@ == old(self)@,
            old(self)@.peer_writable && data@.len() == old(self)@.mem.len() ==> r == Ok::<
                (),
                ShmError,
            >(()) && final(self)@ == (BlockModel { mem: data@, ..old(self)@ }),
    {
        if !self.peer_writable {
            return Err(ShmError::ProtocolError);
        }
        if data.len() != self.mem.len() {
            return Err(ShmError::ProtocolError);
        }
        copy_into(&mut self.mem, data);
        Ok(())
    }

    /// Record whether the peer holds a claim.  Only the protocol-tracking
    /// side of the crate may move this flag.
    pub(crate) fn set_shared(&mut self, v: bool)
        ensures
            final(self)@ == (BlockModel { shared: v, ..old(self)@ }),
    {
        self.shared = v;
    }
}

/// A segment shadowed by a private buffer of the same length.
pub struct ShmTransport {
    block: Vec<u8>,
    segment: ShmBlock,
}

impl View for ShmTransport {
    type V = TransportModel;

    closed spec fn view(&self) -> TransportModel {
        TransportModel { private_buf: self.block@, segment: self.segment@ }
    }
}

impl ShmTransport {
    /// Create a transport of `len` bytes whose segment the peer may write.
    pub fn new(os: &mut SegmentAllocator, len: usize) -> (r: Result<ShmTransport, ShmError>)
        requires
            old(os)@.wf(),
        ensures
            final(os)@.wf(),
            !old(os)@.can_alloc(len) ==> r == Err::<ShmTransport, ShmError>(
                ShmError::AllocationError,
            ) && final(os)@ == old(os)@,
            old(os)@.can_alloc(len) && !old(os)@.alloc_t(len).can_map(
                old(os)@.next_id as i32,
            ) ==> r == Err::<ShmTransport, ShmError>(ShmError::MapError) && final(os)@
                == (AllocatorModel { next_id: old(os)@.next_id + 1, ..old(os)@ }),
            old(os)@.can_alloc(len) && old(os)@.alloc_t(len).can_map(old(os)@.next_id as i32)
                ==> ({
                &&& r is Ok
                &&& r->Ok_0@.wf()
                &&& r->Ok_0@.segment == (BlockModel {
                    shm_id: old(os)@.next_id,
                    mem: r->Ok_0@.segment.mem,
                    shared: false,
                    peer_writable: true,
                })
                &&& r->Ok_0@.segment.mem.len() == len
                &&& all_zero(r->Ok_0@.segment.mem)
                &&& r->Ok_0@.private_buf.len() == len
                &&& all_zero(r->Ok_0@.private_buf)
                &&& final(os)@ == old(os)@.alloc_t(len).map_t(old(os)@.next_id as i32)
            }),
    {
        let segment = match ShmBlock::with_flags(os, len, true) {
            Ok(s) => s,
            Err(e) => {
                return Err(e);
            },
        };
        Ok(ShmTransport { block: zero_vec(len), segment })
    }

    /// Give up the transport and keep only the private buffer.  The
    /// segment is unmapped and destroyed.
    pub fn into_inner(self, os: &mut SegmentAllocator) -> (r: Vec<u8>)
        requires
            old(os)@.wf(),
        ensures
            final(os)@.wf(),
            r@ == self@.private_buf,
            final(os)@ == old(os)@.destroy_t(self@.segment.shm_id as i32),
    {
        let ShmTransport { block, segment } = self;
        segment.release(os);
        block
    }

    /// Unmap and destroy the segment and drop the private buffer.
    pub fn release(self, os: &mut SegmentAllocator)
        requires
            old(os)@.wf(),
        ensures
            final(os)@.wf(),
            final(os)@ == old(os)@.destroy_t(self@.segment.shm_id as i32),
    {
        let ShmTransport { block: _, segment } = self;
        segment.release(os);
    }

    /// The facility-level identifier of the segment behind the transport.
    pub fn shm_id(&self) -> (r: i32)
        ensures
            r == self@.segment.shm_id,
    {
        self.segment.shm_id()
    }

    /// The length of the private buffer and of the region.
    pub fn len(&self) -> (r: usize)
        ensures
            r == self@.private_buf.len(),
    {
        self.block.len()
    }

    /// Whether the peer currently holds a claim on the segment.
    pub fn is_shared(&self) -> (r: bool)
        ensures
            r == self@.segment.shared,
    {
        self.segment.is_shared()
    }

    /// Whether the segment grants the peer write access.
    pub fn is_peer_writable(&self) -> (r: bool)
        ensures
            r == self@.segment.peer_writable,
    {
        self.segment.is_peer_writable()
    }

    /// Read access to the private buffer, the only memory application
    /// code touches directly.
    pub fn as_bytes(&self) -> (r: &Vec<u8>)
        ensures
            r@ == self@.private_buf,
    {
        &self.block
    }

    /// Read access to the region, for inspecting what the peer sees.
    pub fn segment_bytes(&self) -> (r: &Vec<u8>)
        ensures
            r@ == self@.segment.mem,
    {
        self.segment.as_bytes()
    }

    /// Write one byte of the private buffer.  The private buffer is
    /// process-owned, so only the position is checked.
    pub fn write_at(&mut self, i: usize, b: u8) -> (r: Result<(), ShmError>)
        ensures
            i >= old(self)@.private_buf.len() ==> r == Err::<(), ShmError>(
                ShmError::PreconditionViolation,
            ) && final(self)@ == old(self)@,
            i < old(self)@.private_buf.len() ==> r == Ok::<(), ShmError>(()) && final(self)@
                == (TransportModel {
                private_buf: old(self)@.private_buf.update(i as int, b),
                ..old(self)@
            }),
    {
        if i >= self.block.len() {
            return Err(ShmError::PreconditionViolation);
        }
        self.block.set(i, b);
        Ok(())
    }

    /// Overwrite the whole private buffer.  Refused for data whose length
    /// differs from the transport's.
    pub fn fill(&mut self, data: &Vec<u8>) -> (r: Result<(), ShmError>)
        ensures
            data@.len() != old(self)@.private_buf.len() ==> r == Err::<(), ShmError>(
                ShmError::PreconditionViolation,
            ) && final(self)@ == old(self)@,
            data@.len() == old(self)@.private_buf.len() ==> r == Ok::<(), ShmError>(())
                && final(self)@ == (TransportModel { private_buf: data@, ..old(self)@ }),
    {
        if data.len() != self.block.len() {
            return Err(ShmError::PreconditionViolation);
        }
        copy_into(&mut self.block, data);
        Ok(())
    }

    /// Pull: copy the whole region into the private buffer.  Call it only
    /// after the peer's reply or notification says the region is settled;
    /// an early pull reads stale bytes, which is a data hazard but never a
    /// memory hazard, since the private buffer is process-owned.
    pub fn repopulate(&mut self)
        requires
            old(self)@.wf(),
        ensures
            final(self)@ == old(self)@.repopulate_t(),
    {
        let n: usize = self.block.len();
        let mut i: usize = 0;
        while i < n
            invariant
                0 <= i <= n,
                self@.wf(),
                n == self@.private_buf.len(),
                self@.segment == old(self)@.segment,
                forall|j: int| 0 <= j < i ==> self@.private_buf[j] == self@.segment.mem[j],
            decreases n - i,
        {
            let b: u8 = self.segment.as_bytes()[i];
            self.block.set(i, b);
            i = i + 1;
        }
        proof {
            assert(self@.private_buf =~= old(self)@.segment.mem);
            assert(self@ =~= old(self)@.repopulate_t());
        }
    }

    /// Push: copy the whole private buffer into the region.  Refused while
    /// the peer holds a claim on the segment; pushing then would hand the
    /// peer a torn read.
    pub fn publish(&mut self) -> (r: Result<(), ShmError>)
        requires
            old(self)@.wf(),
        ensures
            old(self)@.segment.shared ==> r == Err::<(), ShmError>(
                ShmError::PreconditionViolation,
            ) && final(self)@ == old(self)@,
            !old(self)@.segment.shared ==> r == Ok::<(), ShmError>(()) && final(self)@ == old(
                self,
            )@.publish_t(),
    {
        let r = self.segment.store(&self.block);
        match r {
            Ok(_) => Ok(()),
            Err(e) => Err(e),
        }
    }

    /// A write by the peer process into the region.
    pub(crate) fn peer_write(&mut self, data: &Vec<u8>) -> (r: Result<(), ShmError>)
        ensures
            !old(self)@.segment.peer_writable ==> r == Err::<(), ShmError>(
                ShmError::ProtocolError,
            ) && final(self)@ == old(self)@,
            old(self)@.segment.peer_writable && data@.len() != old(self)@.segment.mem.len() ==> r
                == Err::<(), ShmError>(ShmError::ProtocolError) && final(self)@ == old(self)@,
            old(self)@.segment.peer_writable && data@.len() == old(self)@.segment.mem.len() ==> r
                == Ok::<(), ShmError>(()) && final(self)@ == (TransportModel {
                segment: BlockModel { mem: data@, ..old(self)@.segment },
                ..old(self)@
            }),
    {
        self.segment.peer_write(data)
    }

    /// Record whether the peer holds a claim on the segment.
    pub(crate) fn set_shared(&mut self, v: bool)
        ensures
            final(self)@ == (TransportModel {
                segment: BlockModel { shared: v, ..old(self)@.segment },
                ..old(self)@
            }),
    {
        self.segment.set_shared(v);
    }
}

/// Destroying a freshly allocated, still unmapped segment restores the
/// facility, except for the spent identifier.
proof fn lemma_alloc_then_destroy(a: AllocatorModel, len: usize)
    requires
        a.wf(),
        a.can_alloc(len),
    ensures
        a.alloc_t(len).destroy_t(a.next_id as i32) == (AllocatorModel {
            next_id: a.next_id + 1,
            ..a
        }),
{
    let id = a.next_id as i32;
    let n = a.live.len() as int;
    let p = a.alloc_t(len).live;
    crate::os::lemma_idx_of(p, id);
    assert(p[n].shm_id == id);
    assert(has_id(p, id));
    assert(idx_of(p, id) == n) by {
        let k = idx_of(p, id);
        if k < n {
            assert(p[k] == a.live[k]);
        }
    }
    assert(p.remove(n) =~= a.live);
    assert(a.alloc_t(len).destroy_t(id) =~= (AllocatorModel { next_id: a.next_id + 1, ..a }));
}

} // verus!

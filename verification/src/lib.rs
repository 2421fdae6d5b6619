//! A shared-memory transport between a client process and a display server.
//!
//! The library models the client side of a shared-memory image transport:
//! segment lifecycle against the operating system's shared-memory facility,
//! a shadowed transport that keeps application code away from peer-visible
//! memory, registration of segments with the remote peer, and the
//! completion-handshake protocol that tells the client when a buffer may be
//! reused.  The operating-system and wire-protocol calls themselves live
//! outside the library; everything here is plain, verified state tracking.

use vstd::prelude::*;

pub mod coordinator;
pub mod os;
pub mod registry;
pub mod shm;

pub use coordinator::{
    begin_get, begin_put, classify, complete_put, finish_get, handle_event, EventDisposition,
    GetRequest, PeerEvent, PutRequest, RegionDesc,
};
pub use os::SegmentAllocator;
pub use registry::{SegmentRegistry, ShmBuffer, ShmSegment};
pub use shm::{ShmBlock, ShmTransport};

verus! {

/// Every failure the transport can report.
#[derive(Clone, Copy, Debug, PartialEq, Eq, Structural)]
pub enum ShmError {
    /// The operating system refused to create a segment.
    AllocationError,
    /// A segment was created but could not be mapped into the address space.
    MapError,
    /// The remote peer rejected or errored on a protocol request.
    ProtocolError,
    /// The underlying connection failed while waiting for a reply or event.
    TransportError,
    /// The caller broke the ordering contract (mutation while shared,
    /// detach while a transfer is in flight, push while shared).
    PreconditionViolation,
}

} // verus!

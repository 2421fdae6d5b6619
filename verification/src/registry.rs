//! Registration of segments with the remote peer.
//!
//! The registry is the client's record of the peer's segment table: which
//! peer-visible identifiers are attached, what backs each one, and whether
//! a transfer on it is still in flight.  It owns the backings while they
//! are registered, so that protocol state and the segments' `shared` flags
//! can never drift apart; application code reaches the bytes through the
//! registry's checked accessors.  `ShmSegment` and `ShmBuffer` are the
//! caller-held proofs of registration: attaching creates one, detaching
//! consumes it and hands the backing back.

use vstd::prelude::*;
use vstd::seq_lib::*;

use crate::ShmError;
use crate::os::{AllocatorModel, SegmentAllocator};
use crate::shm::{all_zero, BlockModel, ShmBlock, ShmTransport};

verus! {

/// The mathematical state of one registered segment.
#[verifier::ext_equal]
pub struct EntryModel {
    /// The peer-visible identifier the segment is registered under.
    pub seg_id: u32,
    /// The segment itself.
    pub block: BlockModel,
    /// The private buffer in front of it, for a shadowed registration.
    pub private_buf: Option<Seq<u8>>,
}

/// Whether some entry carries the identifier.
pub open spec fn has_entry(s: Seq<EntryModel>, id: u32) -> bool {
    exists|i: int| 0 <= i < s.len() && s[i].seg_id == id
}

/// The position of the first entry carrying the identifier, or -1.
pub open spec fn entry_idx(s: Seq<EntryModel>, id: u32) -> int
    decreases s.len(),
{
    if s.len() == 0 {
        -1
    } else if s[0].seg_id == id {
        0
    } else {
        let rest = entry_idx(s.subrange(1, s.len() as int), id);
        if rest < 0 {
            -1
        } else {
            rest + 1
        }
    }
}

/// The first match of `entry_idx` is a real position, before which the
/// identifier does not occur.
pub proof fn lemma_entry_idx(s: Seq<EntryModel>, id: u32)
    ensures
        has_entry(s, id) <==> 0 <= entry_idx(s, id) < s.len(),
        has_entry(s, id) ==> s[entry_idx(s, id)].seg_id == id,
        has_entry(s, id) ==> forall|j: int| 0 <= j < entry_idx(s, id) ==> s[j].seg_id != id,
    decreases s.len(),
{
    if s.len() == 0 {
    } else if s[0].seg_id == id {
    } else {
        let rest = s.subrange(1, s.len() as int);
        lemma_entry_idx(rest, id);
        assert forall|i: int| 0 <= i < s.len() && s[i].seg_id == id implies has_entry(rest, id) by {
            assert(rest[i - 1] == s[i]);
        }
        if has_entry(rest, id) {
            let k = entry_idx(rest, id);
            assert(s[k + 1] == rest[k]);
            assert(has_entry(s, id));
            assert forall|j: int| 0 <= j < entry_idx(s, id) implies s[j].seg_id != id by {
                if j > 0 {
                    assert(rest[j - 1] == s[j]);
                }
            }
        }
    }
}

/// The registry's invariant: identifiers name at most one entry, and a
/// shadowed entry's private buffer matches its region in length.
pub open spec fn registry_wf(s: Seq<EntryModel>) -> bool {
    &&& forall|i: int, j: int| 0 <= i < j < s.len() ==> s[i].seg_id != s[j].seg_id
    &&& forall|i: int| 0 <= i < s.len() ==> (#[trigger] s[i].private_buf matches Some(p)
        ==> p.len() == s[i].block.mem.len())
}

/// What backs a registered identifier.
enum Backing {
    /// A bare segment the application writes directly, used for sends.
    Direct(ShmBlock),
    /// A shadowed transport, used where the peer writes the region.
    Shadowed(ShmTransport),
}

/// One registered segment.
struct RegEntry {
    seg_id: u32,
    backing: Backing,
}

impl View for RegEntry {
    type V = EntryModel;

    closed spec fn view(&self) -> EntryModel {
        match self.backing {
            Backing::Direct(b) => EntryModel {
                seg_id: self.seg_id,
                block: b@,
                private_buf: None,
            },
            Backing::Shadowed(t) => EntryModel {
                seg_id: self.seg_id,
                block: t@.segment,
                private_buf: Some(t@.private_buf),
            },
        }
    }
}

/// The client's record of what is registered with the peer.
pub struct SegmentRegistry {
    entries: Vec<RegEntry>,
}

impl View for SegmentRegistry {
    type V = Seq<EntryModel>;

    closed spec fn view(&self) -> Seq<EntryModel> {
        self.entries@.map_values(|e: RegEntry| e@)
    }
}

impl SegmentRegistry {
    /// A registry with nothing attached.
    pub fn new() -> (r: SegmentRegistry)
        ensures
            r@ == Seq::<EntryModel>::empty(),
            registry_wf(r@),
    {
        let r = SegmentRegistry { entries: Vec::new() };
        proof {
            assert(r@ =~= Seq::<EntryModel>::empty());
        }
        r
    }

    /// Where the identifier's entry stands, if anywhere.
    fn find(&self, id: u32) -> (r: Option<usize>)
        ensures
            match r {
                Some(i) => has_entry(self@, id) && i == entry_idx(self@, id) && i < self@.len()
                    && self@[i as int].seg_id == id,
                None => !has_entry(self@, id),
            },
    {
        proof {
            lemma_entry_idx(self@, id);
        }
        let n: usize = self.entries.len();
        let mut i: usize = 0;
        while i < n
            invariant
                n == self.entries.len(),
                self@.len() == n,
                0 <= i <= n,
                forall|j: int| 0 <= j < i ==> self@[j].seg_id != id,
                forall|j: int| 0 <= j < n ==> self@[j].seg_id == self.entries@[j]@.seg_id,
                has_entry(self@, id) <==> 0 <= entry_idx(self@, id) < n,
                has_entry(self@, id) ==> self@[entry_idx(self@, id)].seg_id == id,
                has_entry(self@, id) ==> forall|j: int|
                    0 <= j < entry_idx(self@, id) ==> self@[j].seg_id != id,
            decreases n - i,
        {
            if self.entries[i].seg_id == id {
                proof {
                    assert(self@[i as int].seg_id == id);
                    assert(has_entry(self@, id));
                }
                return Some(i);
            }
            i = i + 1;
        }
        None
    }

    /// How many identifiers are attached.
    pub fn attached_count(&self) -> (r: usize)
        ensures
            r == self@.len(),
    {
        self.entries.len()
    }

    /// Whether the identifier is attached.
    pub fn is_attached(&self, id: u32) -> (r: bool)
        ensures
            r == has_entry(self@, id),
    {
        match self.find(id) {
            Some(_) => true,
            None => false,
        }
    }

    /// Whether the peer holds a claim on the identifier's segment; an
    /// unknown identifier is a protocol error.
    pub fn is_shared(&self, id: u32) -> (r: Result<bool, ShmError>)
        ensures
            !has_entry(self@, id) ==> r == Err::<bool, ShmError>(ShmError::ProtocolError),
            has_entry(self@, id) ==> r == Ok::<bool, ShmError>(
                self@[entry_idx(self@, id)].block.shared,
            ),
    {
        let i = match self.find(id) {
            Some(i) => i,
            None => {
                return Err(ShmError::ProtocolError);
            },
        };
        match &self.entries[i].backing {
            Backing::Direct(b) => Ok(b.is_shared()),
            Backing::Shadowed(t) => Ok(t.is_shared()),
        }
    }

    /// Whether the identifier's segment grants the peer write access; an
    /// unknown identifier is a protocol error.
    pub fn is_peer_writable(&self, id: u32) -> (r: Result<bool, ShmError>)
        ensures
            !has_entry(self@, id) ==> r == Err::<bool, ShmError>(ShmError::ProtocolError),
            has_entry(self@, id) ==> r == Ok::<bool, ShmError>(
                self@[entry_idx(self@, id)].block.peer_writable,
            ),
    {
        let i = match self.find(id) {
            Some(i) => i,
            None => {
                return Err(ShmError::ProtocolError);
            },
        };
        match &self.entries[i].backing {
            Backing::Direct(b) => Ok(b.is_peer_writable()),
            Backing::Shadowed(t) => Ok(t.is_peer_writable()),
        }
    }

    /// Whether the identifier is backed by a shadowed transport; an
    /// unknown identifier is a protocol error.
    pub fn is_shadowed(&self, id: u32) -> (r: Result<bool, ShmError>)
        ensures
            !has_entry(self@, id) ==> r == Err::<bool, ShmError>(ShmError::ProtocolError),
            has_entry(self@, id) ==> r == Ok::<bool, ShmError>(
                self@[entry_idx(self@, id)].private_buf is Some,
            ),
    {
        let i = match self.find(id) {
            Some(i) => i,
            None => {
                return Err(ShmError::ProtocolError);
            },
        };
        match &self.entries[i].backing {
            Backing::Direct(_) => Ok(false),
            Backing::Shadowed(_) => Ok(true),
        }
    }

    /// The bytes application code may read for this identifier: the
    /// region of a bare segment, the private buffer of a shadowed one.
    pub fn as_bytes(&self, id: u32) -> (r: Result<&Vec<u8>, ShmError>)
        ensures
            !has_entry(self@, id) ==> (r matches Err(e) && e == ShmError::ProtocolError),
            has_entry(self@, id) ==> (r matches Ok(b) && b@ == ({
                let m = self@[entry_idx(self@, id)];
                match m.private_buf {
                    Some(p) => p,
                    None => m.block.mem,
                }
            })),
    {
        let i = match self.find(id) {
            Some(i) => i,
            None => {
                return Err(ShmError::ProtocolError);
            },
        };
        match &self.entries[i].backing {
            Backing::Direct(b) => Ok(b.as_bytes()),
            Backing::Shadowed(t) => Ok(t.as_bytes()),
        }
    }

    /// The region bytes for this identifier, whatever backs it: what the
    /// peer sees.
    pub fn region_bytes(&self, id: u32) -> (r: Result<&Vec<u8>, ShmError>)
        ensures
            !has_entry(self@, id) ==> (r matches Err(e) && e == ShmError::ProtocolError),
            has_entry(self@, id) ==> (r matches Ok(b) && b@ == self@[entry_idx(
                self@,
                id,
            )].block.mem),
    {
        let i = match self.find(id) {
            Some(i) => i,
            None => {
                return Err(ShmError::ProtocolError);
            },
        };
        match &self.entries[i].backing {
            Backing::Direct(b) => Ok(b.as_bytes()),
            Backing::Shadowed(t) => Ok(t.segment_bytes()),
        }
    }

    /// Record whether the peer holds a claim on the identifier's segment.
    /// Only the transfer coordination side of the crate moves this flag.
    pub(crate) fn set_shared_by_id(&mut self, id: u32, v: bool) -> (found: bool)
        requires
            registry_wf(old(self)@),
        ensures
            registry_wf(final(self)@),
            found == has_entry(old(self)@, id),
            !found ==> final(self)@ == old(self)@,
            found ==> final(self)@ == old(self)@.update(
                entry_idx(old(self)@, id),
                ({
                    let m = old(self)@[entry_idx(old(self)@, id)];
                    EntryModel { block: BlockModel { shared: v, ..m.block }, ..m }
                }),
            ),
    {
        let i = match self.find(id) {
            Some(i) => i,
            None => {
                return false;
            },
        };
        let mut e: RegEntry = self.entries.remove(i);
        match &mut e.backing {
            Backing::Direct(b) => {
                b.set_shared(v);
            },
            Backing::Shadowed(t) => {
                t.set_shared(v);
            },
        }
        self.entries.insert(i, e);
        proof {
            lemma_replace_view(old(self).entries@, i as int, e);
        }
        true
    }

    /// Write one byte for the identifier: into the region of a bare
    /// segment (refused while the peer holds a claim), into the private
    /// buffer of a shadowed one.  An unknown identifier is a protocol
    /// error; a bad position or a claimed bare segment is a precondition
    /// violation.
    pub fn write_at(&mut self, id: u32, i: usize, b: u8) -> (r: Result<(), ShmError>)
        requires
            registry_wf(old(self)@),
        ensures
            registry_wf(final(self)@),
            !has_entry(old(self)@, id) ==> r == Err::<(), ShmError>(ShmError::ProtocolError)
                && final(self)@ == old(self)@,
            has_entry(old(self)@, id) ==> ({
                let k = entry_idx(old(self)@, id);
                let m = old(self)@[k];
                match m.private_buf {
                    None => {
                        &&& m.block.shared ==> r == Err::<(), ShmError>(
                            ShmError::PreconditionViolation,
                        ) && final(self)@ == old(self)@
                        &&& !m.block.shared && i >= m.block.mem.len() ==> r == Err::<(), ShmError>(
                            ShmError::PreconditionViolation,
                        ) && final(self)@ == old(self)@
                        &&& !m.block.shared && i < m.block.mem.len() ==> r == Ok::<(), ShmError>(())
                            && final(self)@ == old(self)@.update(
                            k,
                            EntryModel {
                                block: BlockModel {
                                    mem: m.block.mem.update(i as int, b),
                                    ..m.block
                                },
                                ..m
                            },
                        )
                    },
                    Some(p) => {
                        &&& i >= p.len() ==> r == Err::<(), ShmError>(
                            ShmError::PreconditionViolation,
                        ) && final(self)@ == old(self)@
                        &&& i < p.len() ==> r == Ok::<(), ShmError>(()) && final(self)@ == old(self)@.update(k, EntryModel { private_buf: Some(p.update(i as int, b)), ..m })
                    },
                }
            }),
    {
        let idx = match self.find(id) {
            Some(idx) => idx,
            None => {
                return Err(ShmError::ProtocolError);
            },
        };
        let mut e: RegEntry = self.entries.remove(idx);
        let r = match &mut e.backing {
            Backing::Direct(blk) => blk.write_at(i, b),
            Backing::Shadowed(t) => t.write_at(i, b),
        };
        self.entries.insert(idx, e);
        proof {
            lemma_replace_view(old(self).entries@, idx as int, e);
            assert(old(self)@.update(idx as int, old(self)@[idx as int]) =~= old(self)@);
        }
        r
    }

    /// Overwrite the whole buffer for the identifier, with the same
    /// access rules as `write_at`; the data must match its length.
    pub fn store(&mut self, id: u32, data: &Vec<u8>) -> (r: Result<(), ShmError>)
        requires
            registry_wf(old(self)@),
        ensures
            registry_wf(final(self)@),
            !has_entry(old(self)@, id) ==> r == Err::<(), ShmError>(ShmError::ProtocolError)
                && final(self)@ == old(self)@,
            has_entry(old(self)@, id) ==> ({
                let k = entry_idx(old(self)@, id);
                let m = old(self)@[k];
                match m.private_buf {
                    None => {
                        &&& m.block.shared ==> r == Err::<(), ShmError>(
                            ShmError::PreconditionViolation,
                        ) && final(self)@ == old(self)@
                        &&& !m.block.shared && data@.len() != m.block.mem.len() ==> r == Err::<
                            (),
                            ShmError,
                        >(ShmError::PreconditionViolation) && final(self)@ == old(self)@
                        &&& !m.block.shared && data@.len() == m.block.mem.len() ==> r == Ok::<
                            (),
                            ShmError,
                        >(()) && final(self)@ == old(self)@.update(
                            k,
                            EntryModel { block: BlockModel { mem: data@, ..m.block }, ..m },
                        )
                    },
                    Some(p) => {
                        &&& data@.len() != p.len() ==> r == Err::<(), ShmError>(
                            ShmError::PreconditionViolation,
                        ) && final(self)@ == old(self)@
                        &&& data@.len() == p.len() ==> r == Ok::<(), ShmError>(()) && final(self)@
                            == old(self)@.update(
                            k,
                            EntryModel { private_buf: Some(data@), ..m },
                        )
                    },
                }
            }),
    {
        let idx = match self.find(id) {
            Some(idx) => idx,
            None => {
                return Err(ShmError::ProtocolError);
            },
        };
        let mut e: RegEntry = self.entries.remove(idx);
        let r = match &mut e.backing {
            Backing::Direct(blk) => blk.store(data),
            Backing::Shadowed(t) => t.fill(data),
        };
        self.entries.insert(idx, e);
        proof {
            lemma_replace_view(old(self).entries@, idx as int, e);
            assert(old(self)@.update(idx as int, old(self)@[idx as int]) =~= old(self)@);
        }
        r
    }

    /// A write by the peer process into the identifier's region.  The
    /// model admits it whenever the segment grants the peer write access:
    /// the peer is outside this process's control.
    pub fn peer_store(&mut self, id: u32, data: &Vec<u8>) -> (r: Result<(), ShmError>)
        requires
            registry_wf(old(self)@),
        ensures
            registry_wf(final(self)@),
            !has_entry(old(self)@, id) ==> r == Err::<(), ShmError>(ShmError::ProtocolError)
                && final(self)@ == old(self)@,
            has_entry(old(self)@, id) ==> ({
                let k = entry_idx(old(self)@, id);
                let m = old(self)@[k];
                &&& !m.block.peer_writable ==> r == Err::<(), ShmError>(ShmError::ProtocolError)
                    && final(self)@ == old(self)@
                &&& m.block.peer_writable && data@.len() != m.block.mem.len() ==> r == Err::<
                    (),
                    ShmError,
                >(ShmError::ProtocolError) && final(self)@ == old(self)@
                &&& m.block.peer_writable && data@.len() == m.block.mem.len() ==> r == Ok::<
                    (),
                    ShmError,
                >(()) && final(self)@ == old(self)@.update(
                    k,
                    EntryModel { block: BlockModel { mem: data@, ..m.block }, ..m },
                )
            }),
    {
        let idx = match self.find(id) {
            Some(idx) => idx,
            None => {
                return Err(ShmError::ProtocolError);
            },
        };
        let mut e: RegEntry = self.entries.remove(idx);
        let r = match &mut e.backing {
            Backing::Direct(blk) => blk.peer_write(data),
            Backing::Shadowed(t) => t.peer_write(data),
        };
        self.entries.insert(idx, e);
        proof {
            lemma_replace_view(old(self).entries@, idx as int, e);
            assert(old(self)@.update(idx as int, old(self)@[idx as int]) =~= old(self)@);
        }
        r
    }

    /// Push the identifier's private buffer into its region.  Only a
    /// shadowed registration has a private buffer, and pushing is refused
    /// while the peer holds a claim on the segment.
    pub fn publish(&mut self, id: u32) -> (r: Result<(), ShmError>)
        requires
            registry_wf(old(self)@),
        ensures
            registry_wf(final(self)@),
            !has_entry(old(self)@, id) ==> r == Err::<(), ShmError>(ShmError::ProtocolError)
                && final(self)@ == old(self)@,
            has_entry(old(self)@, id) ==> ({
                let k = entry_idx(old(self)@, id);
                let m = old(self)@[k];
                match m.private_buf {
                    None => r == Err::<(), ShmError>(ShmError::PreconditionViolation) && final(self)@ == old(self)@,
                    Some(p) => {
                        &&& m.block.shared ==> r == Err::<(), ShmError>(
                            ShmError::PreconditionViolation,
                        ) && final(self)@ == old(self)@
                        &&& !m.block.shared ==> r == Ok::<(), ShmError>(()) && final(self)@ == old(self)@.update(
                            k,
                            EntryModel { block: BlockModel { mem: p, ..m.block }, ..m },
                        )
                    },
                }
            }),
    {
        let idx = match self.find(id) {
            Some(idx) => idx,
            None => {
                return Err(ShmError::ProtocolError);
            },
        };
        let mut e: RegEntry = self.entries.remove(idx);
        let r = match &mut e.backing {
            Backing::Direct(_) => Err(ShmError::PreconditionViolation),
            Backing::Shadowed(t) => t.publish(),
        };
        self.entries.insert(idx, e);
        proof {
            lemma_replace_view(old(self).entries@, idx as int, e);
            assert(old(self)@.update(idx as int, old(self)@[idx as int]) =~= old(self)@);
        }
        r
    }

    /// Pull the identifier's region into its private buffer.  Only a
    /// shadowed registration has one.  Pulling is allowed at any time;
    /// pulling before the peer is done reads stale bytes, a data hazard
    /// but never a memory hazard.
    pub fn repopulate(&mut self, id: u32) -> (r: Result<(), ShmError>)
        requires
            registry_wf(old(self)@),
        ensures
            registry_wf(final(self)@),
            !has_entry(old(self)@, id) ==> r == Err::<(), ShmError>(ShmError::ProtocolError)
                && final(self)@ == old(self)@,
            has_entry(old(self)@, id) ==> ({
                let k = entry_idx(old(self)@, id);
                let m = old(self)@[k];
                match m.private_buf {
                    None => r == Err::<(), ShmError>(ShmError::PreconditionViolation) && final(self)@ == old(self)@,
                    Some(p) => r == Ok::<(), ShmError>(()) && final(self)@ == old(self)@.update(
                        k,
                        EntryModel { private_buf: Some(m.block.mem), ..m },
                    ),
                }
            }),
    {
        let idx = match self.find(id) {
            Some(idx) => idx,
            None => {
                return Err(ShmError::ProtocolError);
            },
        };
        let mut e: RegEntry = self.entries.remove(idx);
        let r = match &mut e.backing {
            Backing::Direct(_) => Err(ShmError::PreconditionViolation),
            Backing::Shadowed(t) => {
                t.repopulate();
                Ok(())
            },
        };
        self.entries.insert(idx, e);
        proof {
            lemma_replace_view(old(self).entries@, idx as int, e);
            assert(old(self)@.update(idx as int, old(self)@[idx as int]) =~= old(self)@);
        }
        r
    }

    /// Register a bare segment under `seg_id`.  A duplicate identifier is
    /// refused as the peer would refuse it.
    pub(crate) fn insert_direct(&mut self, block: ShmBlock, seg_id: u32) -> (r: Result<
        (),
        (ShmBlock, ShmError),
    >)
        requires
            registry_wf(old(self)@),
        ensures
            registry_wf(final(self)@),
            has_entry(old(self)@, seg_id) ==> (r matches Err(p) && p.0@ == block@ && p.1
                == ShmError::ProtocolError && final(self)@ == old(self)@),
            !has_entry(old(self)@, seg_id) ==> r is Ok && final(self)@ == old(self)@.push(
                EntryModel { seg_id, block: block@, private_buf: None },
            ),
    {
        match self.find(seg_id) {
            Some(_) => Err((block, ShmError::ProtocolError)),
            None => {
                self.entries.push(RegEntry { seg_id, backing: Backing::Direct(block) });
                proof {
                    assert(final(self)@ =~= old(self)@.push(
                        EntryModel { seg_id, block: block@, private_buf: None },
                    ));
                }
                Ok(())
            },
        }
    }

    /// Register a shadowed transport under `seg_id`.
    pub(crate) fn insert_shadowed(&mut self, transport: ShmTransport, seg_id: u32) -> (r: Result<
        (),
        (ShmTransport, ShmError),
    >)
        requires
            registry_wf(old(self)@),
            transport@.wf(),
        ensures
            registry_wf(final(self)@),
            has_entry(old(self)@, seg_id) ==> (r matches Err(p) && p.0@ == transport@ && p.1
                == ShmError::ProtocolError && final(self)@ == old(self)@),
            !has_entry(old(self)@, seg_id) ==> r is Ok && final(self)@ == old(self)@.push(
                EntryModel {
                    seg_id,
                    block: transport@.segment,
                    private_buf: Some(transport@.private_buf),
                },
            ),
    {
        match self.find(seg_id) {
            Some(_) => Err((transport, ShmError::ProtocolError)),
            None => {
                self.entries.push(RegEntry { seg_id, backing: Backing::Shadowed(transport) });
                proof {
                    assert(final(self)@ =~= old(self)@.push(
                        EntryModel {
                            seg_id,
                            block: transport@.segment,
                            private_buf: Some(transport@.private_buf),
                        },
                    ));
                }
                Ok(())
            },
        }
    }

    /// Take the bare segment registered under `id` out of the registry.
    /// Refused while a transfer on it is in flight: the peer still holds
    /// a claim, so deregistering now would break the ordering contract.
    pub(crate) fn take_direct(&mut self, id: u32) -> (r: Result<ShmBlock, ShmError>)
        requires
            registry_wf(old(self)@),
        ensures
            registry_wf(final(self)@),
            !has_entry(old(self)@, id) ==> (r matches Err(e) && e == ShmError::ProtocolError
                && final(self)@ == old(self)@),
            has_entry(old(self)@, id) ==> ({
                let k = entry_idx(old(self)@, id);
                let m = old(self)@[k];
                &&& m.block.shared ==> (r matches Err(e) && e == ShmError::PreconditionViolation
                    && final(self)@ == old(self)@)
                &&& !m.block.shared && m.private_buf is Some ==> (r matches Err(e) && e
                    == ShmError::ProtocolError && final(self)@ == old(self)@)
                &&& !m.block.shared && m.private_buf is None ==> (r matches Ok(b) && b@ == m.block
                    && final(self)@ == old(self)@.remove(k))
            }),
    {
        let idx = match self.find(id) {
            Some(idx) => idx,
            None => {
                return Err(ShmError::ProtocolError);
            },
        };
        let checks: (bool, bool) = match &self.entries[idx].backing {
            Backing::Direct(b) => (true, b.is_shared()),
            Backing::Shadowed(t) => (false, t.is_shared()),
        };
        if checks.1 {
            return Err(ShmError::PreconditionViolation);
        }
        if !checks.0 {
            return Err(ShmError::ProtocolError);
        }
        let e: RegEntry = self.entries.remove(idx);
        proof {
            lemma_remove_view(old(self).entries@, idx as int);
            old(self)@.remove_ensures(idx as int);
        }
        match e.backing {
            Backing::Direct(b) => Ok(b),
            Backing::Shadowed(t) => {
                self.entries.insert(idx, RegEntry { seg_id: id, backing: Backing::Shadowed(t) });
                Err(ShmError::ProtocolError)
            },
        }
    }

    /// Take the shadowed transport registered under `id` out of the
    /// registry, under the same in-flight rule as `take_direct`.
    pub(crate) fn take_shadowed(&mut self, id: u32) -> (r: Result<ShmTransport, ShmError>)
        requires
            registry_wf(old(self)@),
        ensures
            registry_wf(final(self)@),
            !has_entry(old(self)@, id) ==> (r matches Err(e) && e == ShmError::ProtocolError
                && final(self)@ == old(self)@),
            has_entry(old(self)@, id) ==> ({
                let k = entry_idx(old(self)@, id);
                let m = old(self)@[k];
                &&& m.block.shared ==> (r matches Err(e) && e == ShmError::PreconditionViolation
                    && final(self)@ == old(self)@)
                &&& !m.block.shared && m.private_buf is None ==> (r matches Err(e) && e
                    == ShmError::ProtocolError && final(self)@ == old(self)@)
                &&& !m.block.shared && m.private_buf is Some ==> (r matches Ok(t) && t@.segment
                    == m.block && Some(t@.private_buf) == m.private_buf && final(self)@ == old(self)@.remove(k))
            }),
    {
        let idx = match self.find(id) {
            Some(idx) => idx,
            None => {
                return Err(ShmError::ProtocolError);
            },
        };
        let checks: (bool, bool) = match &self.entries[idx].backing {
            Backing::Direct(b) => (false, b.is_shared()),
            Backing::Shadowed(t) => (true, t.is_shared()),
        };
        if checks.1 {
            return Err(ShmError::PreconditionViolation);
        }
        if !checks.0 {
            return Err(ShmError::ProtocolError);
        }
        let e: RegEntry = self.entries.remove(idx);
        proof {
            lemma_remove_view(old(self).entries@, idx as int);
            old(self)@.remove_ensures(idx as int);
        }
        match e.backing {
            Backing::Shadowed(t) => Ok(t),
            Backing::Direct(b) => {
                self.entries.insert(idx, RegEntry { seg_id: id, backing: Backing::Direct(b) });
                Err(ShmError::ProtocolError)
            },
        }
    }
}

/// A registered send segment: the caller-held proof that a bare segment
/// stands in the registry under its identifier.
#[derive(Debug)]
pub struct ShmSegment {
    seg_id: u32,
}

impl ShmSegment {
    /// The peer-visible identifier the registration runs under.
    pub closed spec fn id(&self) -> u32 {
        self.seg_id
    }

    /// The peer-visible identifier the registration runs under.
    pub fn seg_id(&self) -> (r: u32)
        ensures
            r == self.id(),
    {
        self.seg_id
    }

    /// Create a segment of `len` bytes that the peer may only read and
    /// register it under the fresh identifier `seg_id`, which the peer's
    /// identifier allocation handed out.  A duplicate identifier is a
    /// protocol error; allocation and mapping failures pass through, and
    /// on any failure nothing stays behind, in the facility or in the
    /// registry.
    pub fn attach(os: &mut SegmentAllocator, reg: &mut SegmentRegistry, seg_id: u32, len: usize)
        -> (r: Result<ShmSegment, ShmError>)
        requires
            old(os)@.wf(),
            registry_wf(old(reg)@),
        ensures
            final(os)@.wf(),
            registry_wf(final(reg)@),
            has_entry(old(reg)@, seg_id) ==> r == Err::<ShmSegment, ShmError>(
                ShmError::ProtocolError,
            ) && final(os)@ == old(os)@ && final(reg)@ == old(reg)@,
            !has_entry(old(reg)@, seg_id) && !old(os)@.can_alloc(len) ==> r == Err::<
                ShmSegment,
                ShmError,
            >(ShmError::AllocationError) && final(os)@ == old(os)@ && final(reg)@ == old(reg)@,
            !has_entry(old(reg)@, seg_id) && old(os)@.can_alloc(len) && !old(os)@.alloc_t(
                len,
            ).can_map(old(os)@.next_id as i32) ==> r == Err::<ShmSegment, ShmError>(
                ShmError::MapError,
            ) && final(os)@ == (AllocatorModel { next_id: old(os)@.next_id + 1, ..old(os)@ })
                && final(reg)@ == old(reg)@,
            !has_entry(old(reg)@, seg_id) && old(os)@.can_alloc(len) && old(os)@.alloc_t(
                len,
            ).can_map(old(os)@.next_id as i32) ==> ({
                &&& r matches Ok(h) && h.id() == seg_id
                &&& final(os)@ == old(os)@.alloc_t(len).map_t(old(os)@.next_id as i32)
                &&& final(reg)@ == old(reg)@.push(final(reg)@.last())
                &&& final(reg)@.last() == (EntryModel {
                    seg_id,
                    block: BlockModel {
                        shm_id: old(os)@.next_id,
                        mem: final(reg)@.last().block.mem,
                        shared: false,
                        peer_writable: false,
                    },
                    private_buf: None,
                })
                &&& final(reg)@.last().block.mem.len() == len
                &&& all_zero(final(reg)@.last().block.mem)
            }),
    {
        if reg.is_attached(seg_id) {
            return Err(ShmError::ProtocolError);
        }
        let block = match ShmBlock::new(os, len) {
            Ok(b) => b,
            Err(e) => {
                return Err(e);
            },
        };
        match reg.insert_direct(block, seg_id) {
            Ok(_) => Ok(ShmSegment { seg_id }),
            Err(p) => {
                p.0.release(os);
                Err(ShmError::ProtocolError)
            },
        }
    }

    /// Deregister the segment and hand its backing block back, consuming
    /// the registration.  Refused with a precondition violation while a
    /// transfer on the identifier is in flight; the registration is then
    /// handed back untouched.
    pub fn detach(self, reg: &mut SegmentRegistry) -> (r: Result<
        ShmBlock,
        (ShmSegment, ShmError),
    >)
        requires
            registry_wf(old(reg)@),
        ensures
            registry_wf(final(reg)@),
            !has_entry(old(reg)@, self.id()) ==> (r matches Err(p) && p.0.id() == self.id() && p.1
                == ShmError::ProtocolError && final(reg)@ == old(reg)@),
            has_entry(old(reg)@, self.id()) ==> ({
                let k = entry_idx(old(reg)@, self.id());
                let m = old(reg)@[k];
                &&& m.block.shared ==> (r matches Err(p) && p.0.id() == self.id() && p.1
                    == ShmError::PreconditionViolation && final(reg)@ == old(reg)@)
                &&& !m.block.shared && m.private_buf is Some ==> (r matches Err(p) && p.0.id()
                    == self.id() && p.1 == ShmError::ProtocolError && final(reg)@ == old(reg)@)
                &&& !m.block.shared && m.private_buf is None ==> (r matches Ok(b) && b@ == m.block
                    && final(reg)@ == old(reg)@.remove(k))
            }),
    {
        match reg.take_direct(self.seg_id) {
            Ok(b) => Ok(b),
            Err(e) => Err((self, e)),
        }
    }
}

/// A registered receive transport: the caller-held proof that a shadowed
/// transport stands in the registry under its identifier.
#[derive(Debug)]
pub struct ShmBuffer {
    seg_id: u32,
}

impl ShmBuffer {
    /// The peer-visible identifier the registration runs under.
    pub closed spec fn id(&self) -> u32 {
        self.seg_id
    }

    /// The peer-visible identifier the registration runs under.
    pub fn seg_id(&self) -> (r: u32)
        ensures
            r == self.id(),
    {
        self.seg_id
    }

    /// Create a shadowed transport of `len` bytes whose segment the peer
    /// may write, and register it under the fresh identifier `seg_id`.
    /// Errors behave as for `ShmSegment::attach`.
    pub fn attach(os: &mut SegmentAllocator, reg: &mut SegmentRegistry, seg_id: u32, len: usize)
        -> (r: Result<ShmBuffer, ShmError>)
        requires
            old(os)@.wf(),
            registry_wf(old(reg)@),
        ensures
            final(os)@.wf(),
            registry_wf(final(reg)@),
            has_entry(old(reg)@, seg_id) ==> r == Err::<ShmBuffer, ShmError>(
                ShmError::ProtocolError,
            ) && final(os)@ == old(os)@ && final(reg)@ == old(reg)@,
            !has_entry(old(reg)@, seg_id) && !old(os)@.can_alloc(len) ==> r == Err::<
                ShmBuffer,
                ShmError,
            >(ShmError::AllocationError) && final(os)@ == old(os)@ && final(reg)@ == old(reg)@,
            !has_entry(old(reg)@, seg_id) && old(os)@.can_alloc(len) && !old(os)@.alloc_t(
                len,
            ).can_map(old(os)@.next_id as i32) ==> r == Err::<ShmBuffer, ShmError>(
                ShmError::MapError,
            ) && final(os)@ == (AllocatorModel { next_id: old(os)@.next_id + 1, ..old(os)@ })
                && final(reg)@ == old(reg)@,
            !has_entry(old(reg)@, seg_id) && old(os)@.can_alloc(len) && old(os)@.alloc_t(
                len,
            ).can_map(old(os)@.next_id as i32) ==> ({
                &&& r matches Ok(h) && h.id() == seg_id
                &&& final(os)@ == old(os)@.alloc_t(len).map_t(old(os)@.next_id as i32)
                &&& final(reg)@ == old(reg)@.push(final(reg)@.last())
                &&& final(reg)@.last() == (EntryModel {
                    seg_id,
                    block: BlockModel {
                        shm_id: old(os)@.next_id,
                        mem: final(reg)@.last().block.mem,
                        shared: false,
                        peer_writable: true,
                    },
                    private_buf: final(reg)@.last().private_buf,
                })
                &&& final(reg)@.last().block.mem.len() == len
                &&& all_zero(final(reg)@.last().block.mem)
                &&& final(reg)@.last().private_buf matches Some(p) && p.len() == len && all_zero(p)
            }),
    {
        if reg.is_attached(seg_id) {
            return Err(ShmError::ProtocolError);
        }
        let transport = match ShmTransport::new(os, len) {
            Ok(t) => t,
            Err(e) => {
                return Err(e);
            },
        };
        match reg.insert_shadowed(transport, seg_id) {
            Ok(_) => Ok(ShmBuffer { seg_id }),
            Err(p) => {
                p.0.release(os);
                Err(ShmError::ProtocolError)
            },
        }
    }

    /// Deregister the transport and hand it back, consuming the
    /// registration.  Refused with a precondition violation while a
    /// transfer on the identifier is in flight.
    pub fn detach(self, reg: &mut SegmentRegistry) -> (r: Result<
        ShmTransport,
        (ShmBuffer, ShmError),
    >)
        requires
            registry_wf(old(reg)@),
        ensures
            registry_wf(final(reg)@),
            !has_entry(old(reg)@, self.id()) ==> (r matches Err(p) && p.0.id() == self.id() && p.1
                == ShmError::ProtocolError && final(reg)@ == old(reg)@),
            has_entry(old(reg)@, self.id()) ==> ({
                let k = entry_idx(old(reg)@, self.id());
                let m = old(reg)@[k];
                &&& m.block.shared ==> (r matches Err(p) && p.0.id() == self.id() && p.1
                    == ShmError::PreconditionViolation && final(reg)@ == old(reg)@)
                &&& !m.block.shared && m.private_buf is None ==> (r matches Err(p) && p.0.id()
                    == self.id() && p.1 == ShmError::ProtocolError && final(reg)@ == old(reg)@)
                &&& !m.block.shared && m.private_buf is Some ==> (r matches Ok(t) && t@.segment
                    == m.block && Some(t@.private_buf) == m.private_buf && final(reg)@ == old(reg)@.remove(k))
            }),
    {
        match reg.take_shadowed(self.seg_id) {
            Ok(t) => Ok(t),
            Err(e) => Err((self, e)),
        }
    }

    /// Pull the registered transport's region into its private buffer,
    /// once the peer's reply says the region is settled.
    pub fn repopulate(&self, reg: &mut SegmentRegistry) -> (r: Result<(), ShmError>)
        requires
            registry_wf(old(reg)@),
        ensures
            registry_wf(final(reg)@),
            !has_entry(old(reg)@, self.id()) ==> r == Err::<(), ShmError>(ShmError::ProtocolError)
                && final(reg)@ == old(reg)@,
            has_entry(old(reg)@, self.id()) ==> ({
                let k = entry_idx(old(reg)@, self.id());
                let m = old(reg)@[k];
                match m.private_buf {
                    None => r == Err::<(), ShmError>(ShmError::PreconditionViolation) && final(reg)@ == old(reg)@,
                    Some(p) => r == Ok::<(), ShmError>(()) && final(reg)@ == old(reg)@.update(
                        k,
                        EntryModel { private_buf: Some(m.block.mem), ..m },
                    ),
                }
            }),
    {
        reg.repopulate(self.seg_id)
    }

    /// Push the registered transport's private buffer into its region,
    /// refused while the peer holds a claim on the segment.
    pub fn publish(&self, reg: &mut SegmentRegistry) -> (r: Result<(), ShmError>)
        requires
            registry_wf(old(reg)@),
        ensures
            registry_wf(final(reg)@),
            !has_entry(old(reg)@, self.id()) ==> r == Err::<(), ShmError>(ShmError::ProtocolError)
                && final(reg)@ == old(reg)@,
            has_entry(old(reg)@, self.id()) ==> ({
                let k = entry_idx(old(reg)@, self.id());
                let m = old(reg)@[k];
                match m.private_buf {
                    None => r == Err::<(), ShmError>(ShmError::PreconditionViolation) && final(reg)@ == old(reg)@,
                    Some(p) => {
                        &&& m.block.shared ==> r == Err::<(), ShmError>(
                            ShmError::PreconditionViolation,
                        ) && final(reg)@ == old(reg)@
                        &&& !m.block.shared ==> r == Ok::<(), ShmError>(()) && final(reg)@ == old(reg)@.update(
                            k,
                            EntryModel { block: BlockModel { mem: p, ..m.block }, ..m },
                        )
                    },
                }
            }),
    {
        reg.publish(self.seg_id)
    }
}

/// Removing an entry and putting another back in its place acts on the
/// registry's view as a single in-place update.
proof fn lemma_replace_view(s: Seq<RegEntry>, i: int, e: RegEntry)
    requires
        0 <= i < s.len(),
    ensures
        s.remove(i).insert(i, e).map_values(|x: RegEntry| x@) =~= s.map_values(
            |x: RegEntry| x@,
        ).update(i, e@),
{
    s.remove_ensures(i);
    s.remove(i).insert_ensures(i, e);
}

/// Removing an entry removes exactly its image from the registry's view.
proof fn lemma_remove_view(s: Seq<RegEntry>, i: int)
    requires
        0 <= i < s.len(),
    ensures
        s.remove(i).map_values(|x: RegEntry| x@) =~= s.map_values(|x: RegEntry| x@).remove(i),
{
    s.remove_ensures(i);
    s.map_values(|x: RegEntry| x@).remove_ensures(i);
}

} // verus!

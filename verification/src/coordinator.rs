//! The transfer protocol: puts, gets, and the completion handshake.
//!
//! A put hands a registered segment to the peer and, on the safe path,
//! waits for the completion notification that names the same segment
//! identifier before the buffer may be reused.  While one transfer waits,
//! events for other transfers keep arriving: a completion for a different
//! segment releases exactly that segment, and every event other than the
//! awaited completion is forwarded unchanged to the caller's sink, in
//! arrival order, so nothing is lost.  The functions here decide; the
//! caller performs the sends and blocking reads and hands each event in.

use vstd::prelude::*;

use crate::ShmError;
use crate::registry::{
    entry_idx, has_entry, lemma_entry_idx, registry_wf, EntryModel, SegmentRegistry,
};
use crate::shm::BlockModel;

verus! {

/// One event read from the peer's stream, as the transfer logic sees it:
/// either a transfer-completion notification naming a segment identifier,
/// or any other event, carried through untouched under an opaque tag.
#[derive(Clone, Copy, Debug, PartialEq, Eq, Structural)]
pub enum PeerEvent {
    /// The peer has finished reading the named segment.
    Completion { seg_id: u32 },
    /// Any other event of the stream.
    Other { tag: u64 },
}

/// The rectangle a transfer moves, with its pixel format and depth.
#[derive(Clone, Copy, Debug, PartialEq, Eq, Structural)]
pub struct RegionDesc {
    pub src_x: u16,
    pub src_y: u16,
    pub width: u16,
    pub height: u16,
    pub dest_x: i16,
    pub dest_y: i16,
    pub depth: u8,
    pub format: u8,
}

/// A put request ready to be sent to the peer.
#[derive(Clone, Copy, Debug, PartialEq, Eq, Structural)]
pub struct PutRequest {
    /// The registered segment the peer will read.
    pub seg_id: u32,
    /// The rectangle to move.
    pub region: RegionDesc,
    /// Whether a completion notification was requested.
    pub notify: bool,
    /// Byte offset of the data inside the segment.
    pub offset: u32,
}

/// A get request ready to be sent to the peer.
#[derive(Clone, Copy, Debug, PartialEq, Eq, Structural)]
pub struct GetRequest {
    /// The registered segment the peer will write.
    pub seg_id: u32,
    /// The rectangle to move.
    pub region: RegionDesc,
    /// Which planes to fetch.
    pub plane_mask: u32,
    /// Byte offset of the data inside the segment.
    pub offset: u32,
}

/// What one event means to a wait on `target`.
#[derive(Clone, Copy, Debug, PartialEq, Eq, Structural)]
pub enum EventDisposition {
    /// The awaited completion: the wait is over.
    CompletesTarget,
    /// A completion for a different segment: release that segment and
    /// forward the event.
    ReleasesOther { seg_id: u32 },
    /// Anything else: forward the event and keep waiting.
    PassThrough,
}

/// The event filter at the heart of the completion wait, as a pure
/// function of the event and the awaited identifier.  Notifications are
/// matched strictly by identifier equality.
pub open spec fn classify_spec(ev: PeerEvent, target: u32) -> EventDisposition {
    match ev {
        PeerEvent::Completion { seg_id } => {
            if seg_id == target {
                EventDisposition::CompletesTarget
            } else {
                EventDisposition::ReleasesOther { seg_id }
            }
        },
        PeerEvent::Other { tag } => EventDisposition::PassThrough,
    }
}

/// Whether the event is the completion notification for `target`.
pub open spec fn completion_for(ev: PeerEvent, target: u32) -> bool {
    classify_spec(ev, target) is CompletesTarget
}

/// The event filter, executable.
pub fn classify(ev: &PeerEvent, target: u32) -> (r: EventDisposition)
    ensures
        r == classify_spec(*ev, target),
{
    match ev {
        PeerEvent::Completion { seg_id } => {
            if *seg_id == target {
                EventDisposition::CompletesTarget
            } else {
                EventDisposition::ReleasesOther { seg_id: *seg_id }
            }
        },
        PeerEvent::Other { tag: _ } => EventDisposition::PassThrough,
    }
}

/// The registry after the segment named `id` is released: its peer claim
/// is cleared, every other entry stands untouched.  Releasing an unknown
/// identifier changes nothing.
pub open spec fn release_t(s: Seq<EntryModel>, id: u32) -> Seq<EntryModel> {
    if has_entry(s, id) {
        let k = entry_idx(s, id);
        let m = s[k];
        s.update(k, EntryModel { block: BlockModel { shared: false, ..m.block }, ..m })
    } else {
        s
    }
}

/// The registry after one event is delivered: a completion releases the
/// segment it names, any other event leaves the registry alone.
pub open spec fn deliver_t(s: Seq<EntryModel>, ev: PeerEvent) -> Seq<EntryModel> {
    match ev {
        PeerEvent::Completion { seg_id } => release_t(s, seg_id),
        PeerEvent::Other { tag } => s,
    }
}

/// The registry after a run of events is delivered in order.
pub open spec fn deliver_all_t(s: Seq<EntryModel>, evs: Seq<PeerEvent>) -> Seq<EntryModel>
    decreases evs.len(),
{
    if evs.len() == 0 {
        s
    } else {
        deliver_all_t(deliver_t(s, evs[0]), evs.subrange(1, evs.len() as int))
    }
}

/// Start a put: mark the segment as claimed by the peer and describe the
/// request the caller must send.  Refused for an unknown identifier, and
/// while another transfer on the same segment is still in flight — one
/// segment carries at most one put at a time.
///
/// A put with `notify` false asks for no completion notification, so it
/// has no defined moment at which reuse becomes safe: the claim is set
/// here and nothing will ever clear it.  That known hazard of the
/// no-notification variant is deliberately left visible rather than
/// papered over with an imagined fence.
pub fn begin_put(reg: &mut SegmentRegistry, seg_id: u32, region: RegionDesc, notify: bool) -> (r:
    Result<PutRequest, ShmError>)
    requires
        registry_wf(old(reg)@),
    ensures
        registry_wf(final(reg)@),
        !has_entry(old(reg)@, seg_id) ==> r == Err::<PutRequest, ShmError>(
            ShmError::ProtocolError,
        ) && final(reg)@ == old(reg)@,
        has_entry(old(reg)@, seg_id) && old(reg)@[entry_idx(old(reg)@, seg_id)].block.shared ==> r
            == Err::<PutRequest, ShmError>(ShmError::PreconditionViolation) && final(reg)@ == old(reg)@,
        has_entry(old(reg)@, seg_id) && !old(reg)@[entry_idx(old(reg)@, seg_id)].block.shared
            ==> ({
            let k = entry_idx(old(reg)@, seg_id);
            let m = old(reg)@[k];
            &&& r == Ok::<PutRequest, ShmError>(PutRequest { seg_id, region, notify, offset: 0 })
            &&& final(reg)@ == old(reg)@.update(
                k,
                EntryModel { block: BlockModel { shared: true, ..m.block }, ..m },
            )
        }),
    {
        let shared = match reg.is_shared(seg_id) {
            Ok(s) => s,
            Err(e) => {
                return Err(e);
            },
        };
        if shared {
            return Err(ShmError::PreconditionViolation);
        }
        reg.set_shared_by_id(seg_id, true);
        Ok(PutRequest { seg_id, region, notify, offset: 0 })
    }

/// Deliver one event to a wait on `target`.  The awaited completion ends
/// the wait and releases the target segment; a completion for another
/// segment releases exactly that segment and is forwarded; every other
/// event is forwarded unchanged, exactly once, in arrival order.
pub fn handle_event(
    reg: &mut SegmentRegistry,
    target: u32,
    ev: &PeerEvent,
    sink: &mut Vec<PeerEvent>,
) -> (done: bool)
    requires
        registry_wf(old(reg)@),
    ensures
        registry_wf(final(reg)@),
        done == completion_for(*ev, target),
        final(reg)@ == deliver_t(old(reg)@, *ev),
        done ==> final(sink)@ == old(sink)@,
        !done ==> final(sink)@ == old(sink)@.push(*ev),
{
    let d = classify(ev, target);
    match d {
        EventDisposition::CompletesTarget => {
            reg.set_shared_by_id(target, false);
            true
        },
        EventDisposition::ReleasesOther { seg_id } => {
            reg.set_shared_by_id(seg_id, false);
            sink.push(*ev);
            false
        },
        EventDisposition::PassThrough => {
            sink.push(*ev);
            false
        },
    }
}

/// Drive a wait on `target` through a run of events, in order, until the
/// awaited completion arrives.  Returns how many events were consumed;
/// the consumed prefix short of the completion itself is forwarded to the
/// sink unchanged.  If the run ends without the completion, every event
/// has been delivered and forwarded and the wait reports the transport
/// failure.
pub fn complete_put(
    reg: &mut SegmentRegistry,
    target: u32,
    events: &Vec<PeerEvent>,
    sink: &mut Vec<PeerEvent>,
) -> (r: Result<usize, ShmError>)
    requires
        registry_wf(old(reg)@),
    ensures
        registry_wf(final(reg)@),
        r is Ok <==> exists|j: int|
            0 <= j < events@.len() && completion_for(#[trigger] events@[j], target),
        r matches Ok(k) ==> ({
            &&& 1 <= k <= events@.len()
            &&& completion_for(events@[k - 1], target)
            &&& forall|j: int| 0 <= j < k - 1 ==> !completion_for(#[trigger] events@[j], target)
            &&& final(reg)@ == deliver_all_t(old(reg)@, events@.take(k as int))
            &&& final(sink)@ == old(sink)@ + events@.take(k - 1)
        }),
        r is Err ==> ({
            &&& r == Err::<usize, ShmError>(ShmError::TransportError)
            &&& final(reg)@ == deliver_all_t(old(reg)@, events@)
            &&& final(sink)@ == old(sink)@ + events@
        }),
{
    let n: usize = events.len();
    let mut i: usize = 0;
    while i < n
        invariant
            registry_wf(reg@),
            n == events@.len(),
            0 <= i <= n,
            reg@ == deliver_all_t(old(reg)@, events@.take(i as int)),
            sink@ == old(sink)@ + events@.take(i as int),
            forall|j: int| 0 <= j < i ==> !completion_for(#[trigger] events@[j], target),
        decreases n - i,
    {
        let ev: PeerEvent = events[i];
        let done = handle_event(reg, target, &ev, sink);
        proof {
            assert(events@.take(i + 1) =~= events@.take(i as int).push(ev));
            lemma_deliver_all_snoc(old(reg)@, events@.take(i as int), ev);
        }
        if done {
            return Ok(i + 1);
        }
        proof {
            assert(sink@ =~= old(sink)@ + events@.take(i + 1));
        }
        i = i + 1;
    }
    proof {
        assert(events@.take(n as int) =~= events@);
    }
    Err(ShmError::TransportError)
}

/// Start a get: mark the segment as claimed while the peer writes it and
/// describe the request the caller must send.  Refused for an unknown
/// identifier, for a segment the peer may not write, and while another
/// transfer on the segment is in flight.
pub fn begin_get(reg: &mut SegmentRegistry, seg_id: u32, region: RegionDesc, plane_mask: u32) -> (r:
    Result<GetRequest, ShmError>)
    requires
        registry_wf(old(reg)@),
    ensures
        registry_wf(final(reg)@),
        !has_entry(old(reg)@, seg_id) ==> r == Err::<GetRequest, ShmError>(
            ShmError::ProtocolError,
        ) && final(reg)@ == old(reg)@,
        has_entry(old(reg)@, seg_id) && !old(reg)@[entry_idx(old(reg)@, seg_id)].block.peer_writable
            ==> r == Err::<GetRequest, ShmError>(ShmError::ProtocolError) && final(reg)@ == old(reg)@,
        has_entry(old(reg)@, seg_id) && old(reg)@[entry_idx(old(reg)@, seg_id)].block.peer_writable
            && old(reg)@[entry_idx(old(reg)@, seg_id)].block.shared ==> r == Err::<
            GetRequest,
            ShmError,
        >(ShmError::PreconditionViolation) && final(reg)@ == old(reg)@,
        has_entry(old(reg)@, seg_id) && old(reg)@[entry_idx(old(reg)@, seg_id)].block.peer_writable
            && !old(reg)@[entry_idx(old(reg)@, seg_id)].block.shared ==> ({
            let k = entry_idx(old(reg)@, seg_id);
            let m = old(reg)@[k];
            &&& r == Ok::<GetRequest, ShmError>(GetRequest { seg_id, region, plane_mask, offset: 0 })
            &&& final(reg)@ == old(reg)@.update(
                k,
                EntryModel { block: BlockModel { shared: true, ..m.block }, ..m },
            )
        }),
{
    let writable = match reg.is_peer_writable(seg_id) {
        Ok(w) => w,
        Err(e) => {
            return Err(e);
        },
    };
    if !writable {
        return Err(ShmError::ProtocolError);
    }
    let shared = match reg.is_shared(seg_id) {
        Ok(s) => s,
        Err(e) => {
            return Err(e);
        },
    };
    if shared {
        return Err(ShmError::PreconditionViolation);
    }
    reg.set_shared_by_id(seg_id, true);
    Ok(GetRequest { seg_id, region, plane_mask, offset: 0 })
}

/// Finish a get once its reply has arrived: the peer's claim on the
/// segment ends.  Refused for an unknown identifier and when no transfer
/// was in flight.
pub fn finish_get(reg: &mut SegmentRegistry, seg_id: u32) -> (r: Result<(), ShmError>)
    requires
        registry_wf(old(reg)@),
    ensures
        registry_wf(final(reg)@),
        !has_entry(old(reg)@, seg_id) ==> r == Err::<(), ShmError>(ShmError::ProtocolError)
            && final(reg)@ == old(reg)@,
        has_entry(old(reg)@, seg_id) && !old(reg)@[entry_idx(old(reg)@, seg_id)].block.shared ==> r
            == Err::<(), ShmError>(ShmError::PreconditionViolation) && final(reg)@ == old(reg)@,
        has_entry(old(reg)@, seg_id) && old(reg)@[entry_idx(old(reg)@, seg_id)].block.shared
            ==> ({
            let k = entry_idx(old(reg)@, seg_id);
            let m = old(reg)@[k];
            &&& r == Ok::<(), ShmError>(())
            &&& final(reg)@ == release_t(old(reg)@, seg_id)
        }),
{
    let shared = match reg.is_shared(seg_id) {
        Ok(s) => s,
        Err(e) => {
            return Err(e);
        },
    };
    if !shared {
        return Err(ShmError::PreconditionViolation);
    }
    reg.set_shared_by_id(seg_id, false);
    Ok(())
}

/// A completion notification releases exactly the segment whose
/// identifier it names and never a different one: every entry under
/// another identifier stands untouched, and the named entry loses its
/// peer claim and nothing else.
pub proof fn lemma_release_exact(s: Seq<EntryModel>, id: u32)
    requires
        registry_wf(s),
    ensures
        release_t(s, id).len() == s.len(),
        registry_wf(release_t(s, id)),
        forall|j: int| 0 <= j < s.len() && s[j].seg_id != id ==> release_t(s, id)[j] == s[j],
        forall|j: int| 0 <= j < s.len() && s[j].seg_id == id ==> release_t(s, id)[j]
            == (EntryModel { block: BlockModel { shared: false, ..s[j].block }, ..s[j] }),
{
    if has_entry(s, id) {
        lemma_entry_idx(s, id);
        let k = entry_idx(s, id);
        assert forall|j: int| 0 <= j < s.len() && s[j].seg_id == id implies j == k by {
            if j < k {
                assert(s[j].seg_id != id);
            }
        }
    }
}

/// Completion notifications for two distinct identifiers release their
/// two segments whichever order they arrive in: the releases land on
/// different entries and commute.
pub proof fn lemma_release_commutes(s: Seq<EntryModel>, a: u32, b: u32)
    requires
        registry_wf(s),
        a != b,
    ensures
        release_t(release_t(s, a), b) == release_t(release_t(s, b), a),
{
    lemma_release_exact(s, a);
    lemma_release_exact(s, b);
    lemma_release_exact(release_t(s, a), b);
    lemma_release_exact(release_t(s, b), a);
    assert forall|j: int| 0 <= j < s.len() implies release_t(release_t(s, a), b)[j] == release_t(
        release_t(s, b),
        a,
    )[j] by {
        assert(release_t(s, a)[j].seg_id == s[j].seg_id);
        assert(release_t(s, b)[j].seg_id == s[j].seg_id);
    }
    assert(release_t(release_t(s, a), b) =~= release_t(release_t(s, b), a));
}

/// Delivering a run of events one by one and delivering it whole are the
/// same thing: the next event acts on the registry the earlier ones left.
pub proof fn lemma_deliver_all_snoc(s: Seq<EntryModel>, evs: Seq<PeerEvent>, ev: PeerEvent)
    ensures
        deliver_all_t(s, evs.push(ev)) == deliver_t(deliver_all_t(s, evs), ev),
    decreases evs.len(),
{
    if evs.len() == 0 {
        assert(evs.push(ev)[0] == ev);
        assert(evs.push(ev).subrange(1, 1) =~= Seq::<PeerEvent>::empty());
        assert(deliver_all_t(s, evs.push(ev)) == deliver_all_t(
            deliver_t(s, ev),
            evs.push(ev).subrange(1, 1),
        ));
        assert(deliver_all_t(deliver_t(s, ev), Seq::<PeerEvent>::empty()) == deliver_t(s, ev));
        assert(deliver_all_t(s, evs) == s);
    } else {
        let rest = evs.subrange(1, evs.len() as int);
        assert(evs.push(ev)[0] == evs[0]);
        assert(evs.push(ev).subrange(1, evs.len() as int + 1) =~= rest.push(ev));
        lemma_deliver_all_snoc(deliver_t(s, evs[0]), rest, ev);
        assert(deliver_all_t(s, evs.push(ev)) == deliver_all_t(
            deliver_t(s, evs[0]),
            rest.push(ev),
        ));
        assert(deliver_all_t(s, evs) == deliver_all_t(deliver_t(s, evs[0]), rest));
    }
}

} // verus!

//! A model of the operating system's shared-memory facility.
//!
//! The kernel hands out segment identifiers, maps segments into the process
//! address space, and destroys them again.  This module tracks that resource
//! accounting as plain state: how many bytes the facility will still grant,
//! how many address-space slots remain for mappings, and which segments are
//! live.  Segment lifecycle code is verified against this model; a program
//! that talks to the real kernel performs each step through its own binding
//! and keeps the outcomes in line with the model's contracts.

use vstd::prelude::*;

use crate::ShmError;

verus! {

/// One live segment as the facility sees it: its identifier, its byte
/// length, and whether it is currently mapped into the address space.
#[derive(Clone, Copy, Debug, PartialEq, Eq, Structural)]
pub struct LiveSegment {
    pub shm_id: i32,
    pub len: usize,
    pub mapped: bool,
}

/// The mathematical state of the facility.
#[verifier::ext_equal]
pub struct AllocatorModel {
    /// Bytes the facility will grant in total.
    pub capacity: int,
    /// Bytes currently granted to live segments.
    pub used: int,
    /// Mapping slots the process address space offers in total.
    pub slots_total: int,
    /// Mapping slots still free.
    pub slots_free: int,
    /// The identifier the next allocation will receive.
    pub next_id: int,
    /// The live segments, in order of allocation.
    pub live: Seq<LiveSegment>,
}

/// Total byte length of a run of live segments.
pub open spec fn sum_lens(s: Seq<LiveSegment>) -> int
    decreases s.len(),
{
    if s.len() == 0 {
        0
    } else {
        sum_lens(s.drop_last()) + s.last().len
    }
}

/// How many of the segments are mapped.
pub open spec fn mapped_count(s: Seq<LiveSegment>) -> int
    decreases s.len(),
{
    if s.len() == 0 {
        0
    } else {
        mapped_count(s.drop_last()) + if s.last().mapped {
            1int
        } else {
            0int
        }
    }
}

/// Whether some live segment carries the identifier.
pub open spec fn has_id(s: Seq<LiveSegment>, id: i32) -> bool {
    exists|i: int| 0 <= i < s.len() && s[i].shm_id == id
}

/// The position of the first segment carrying the identifier, or -1.
pub open spec fn idx_of(s: Seq<LiveSegment>, id: i32) -> int
    decreases s.len(),
{
    if s.len() == 0 {
        -1
    } else if s[0].shm_id == id {
        0
    } else {
        let rest = idx_of(s.subrange(1, s.len() as int), id);
        if rest < 0 {
            -1
        } else {
            rest + 1
        }
    }
}

/// Identifiers strictly increase along the allocation order, so each one
/// names at most one live segment.
pub open spec fn increasing_ids(s: Seq<LiveSegment>) -> bool {
    forall|i: int, j: int| 0 <= i < j < s.len() ==> s[i].shm_id < s[j].shm_id
}

impl AllocatorModel {
    /// The internal accounting the facility keeps consistent.
    pub open spec fn wf(self) -> bool {
        &&& self.used == sum_lens(self.live)
        &&& self.slots_free == self.slots_total - mapped_count(self.live)
        &&& 0 <= self.used <= self.capacity
        &&& 0 <= mapped_count(self.live) <= self.slots_total
        &&& 1 <= self.next_id <= i32::MAX
        &&& increasing_ids(self.live)
        &&& forall|i: int| 0 <= i < self.live.len() ==> 1 <= #[trigger] self.live[i].shm_id < self.next_id
    }

    /// Whether an allocation of `len` bytes will be granted.
    pub open spec fn can_alloc(self, len: usize) -> bool {
        &&& len > 0
        &&& self.used + len <= self.capacity
        &&& self.next_id < i32::MAX
    }

    /// The facility after granting `len` bytes.
    pub open spec fn alloc_t(self, len: usize) -> AllocatorModel {
        AllocatorModel {
            used: self.used + len,
            next_id: self.next_id + 1,
            live: self.live.push(
                LiveSegment { shm_id: self.next_id as i32, len, mapped: false },
            ),
            ..self
        }
    }

    /// Whether mapping the segment named `id` will succeed.
    pub open spec fn can_map(self, id: i32) -> bool {
        &&& has_id(self.live, id)
        &&& !self.live[idx_of(self.live, id)].mapped
        &&& self.slots_free > 0
    }

    /// The facility after mapping the segment named `id`.
    pub open spec fn map_t(self, id: i32) -> AllocatorModel {
        let i = idx_of(self.live, id);
        AllocatorModel {
            slots_free: self.slots_free - 1,
            live: self.live.update(i, LiveSegment { mapped: true, ..self.live[i] }),
            ..self
        }
    }

    /// The facility after unmapping and destroying the segment named `id`;
    /// destruction of an unknown identifier changes nothing.
    pub open spec fn destroy_t(self, id: i32) -> AllocatorModel {
        if has_id(self.live, id) {
            let i = idx_of(self.live, id);
            AllocatorModel {
                used: self.used - self.live[i].len,
                slots_free: self.slots_free + if self.live[i].mapped {
                    1int
                } else {
                    0int
                },
                live: self.live.remove(i),
                ..self
            }
        } else {
            self
        }
    }
}

/// The first match of `idx_of` is a real position, before which the
/// identifier does not occur.
pub proof fn lemma_idx_of(s: Seq<LiveSegment>, id: i32)
    ensures
        has_id(s, id) <==> 0 <= idx_of(s, id) < s.len(),
        has_id(s, id) ==> s[idx_of(s, id)].shm_id == id,
        has_id(s, id) ==> forall|j: int| 0 <= j < idx_of(s, id) ==> s[j].shm_id != id,
    decreases s.len(),
{
    if s.len() == 0 {
    } else if s[0].shm_id == id {
    } else {
        let rest = s.subrange(1, s.len() as int);
        lemma_idx_of(rest, id);
        assert forall|i: int| 0 <= i < s.len() && s[i].shm_id == id implies has_id(rest, id) by {
            assert(rest[i - 1] == s[i]);
        }
        if has_id(rest, id) {
            let k = idx_of(rest, id);
            assert(s[k + 1] == rest[k]);
            assert(has_id(s, id));
            assert forall|j: int| 0 <= j < idx_of(s, id) implies s[j].shm_id != id by {
                if j > 0 {
                    assert(rest[j - 1] == s[j]);
                }
            }
        }
    }
}

/// Creating a segment of any positive length and then destroying it leaves
/// the facility's resource accounting exactly where it was: the same live
/// segments, the same bytes in use, the same free mapping slots.  Only the
/// identifier counter moves on, and identifiers are not a resource.
pub proof fn lemma_create_then_destroy_restores(a: AllocatorModel, len: usize)
    requires
        a.wf(),
        a.can_alloc(len),
        a.alloc_t(len).can_map(a.next_id as i32),
    ensures
        ({
            let b = a.alloc_t(len).map_t(a.next_id as i32).destroy_t(a.next_id as i32);
            &&& b.live == a.live
            &&& b.used == a.used
            &&& b.slots_free == a.slots_free
            &&& b.capacity == a.capacity
            &&& b.slots_total == a.slots_total
        }),
{
    let id = a.next_id as i32;
    let n = a.live.len() as int;
    let p = a.alloc_t(len).live;
    lemma_idx_of(p, id);
    assert(p[n].shm_id == id);
    assert(has_id(p, id));
    assert(idx_of(p, id) == n) by {
        let k = idx_of(p, id);
        if k < n {
            assert(p[k] == a.live[k]);
        }
    }
    let m = a.alloc_t(len).map_t(id).live;
    lemma_idx_of(m, id);
    assert(m[n].shm_id == id);
    assert(has_id(m, id));
    assert(idx_of(m, id) == n) by {
        let k = idx_of(m, id);
        if k < n {
            assert(m[k] == a.live[k]);
        }
    }
    assert(m.remove(n) =~= a.live);
}

/// The model of the operating system's shared-memory facility that the
/// library's segment lifecycle runs against.
pub struct SegmentAllocator {
    capacity: usize,
    used: usize,
    slots_total: usize,
    slots_free: usize,
    next_id: i32,
    live: Vec<LiveSegment>,
}

impl View for SegmentAllocator {
    type V = AllocatorModel;

    closed spec fn view(&self) -> AllocatorModel {
        AllocatorModel {
            capacity: self.capacity as int,
            used: self.used as int,
            slots_total: self.slots_total as int,
            slots_free: self.slots_free as int,
            next_id: self.next_id as int,
            live: self.live@,
        }
    }
}

impl SegmentAllocator {
    /// A facility that will grant `capacity` bytes in total and offer
    /// `slots` concurrent mappings.
    pub fn new(capacity: usize, slots: usize) -> (r: SegmentAllocator)
        ensures
            r@.wf(),
            r@.capacity == capacity,
            r@.slots_total == slots,
            r@.live == Seq::<LiveSegment>::empty(),
    {
        SegmentAllocator {
            capacity,
            used: 0,
            slots_total: slots,
            slots_free: slots,
            next_id: 1,
            live: Vec::new(),
        }
    }

    /// Where the segment named `id` stands in the live list, if anywhere.
    fn find_idx(&self, id: i32) -> (r: Option<usize>)
        ensures
            match r {
                Some(i) => has_id(self@.live, id) && i == idx_of(self@.live, id) && i
                    < self@.live.len() && self@.live[i as int].shm_id == id,
                None => !has_id(self@.live, id),
            },
    {
        proof {
            lemma_idx_of(self@.live, id);
        }
        let n: usize = self.live.len();
        let mut i: usize = 0;
        while i < n
            invariant
                n == self.live.len(),
                0 <= i <= n,
                forall|j: int| 0 <= j < i ==> self.live@[j].shm_id != id,
                has_id(self@.live, id) <==> 0 <= idx_of(self@.live, id) < n,
                has_id(self@.live, id) ==> self@.live[idx_of(self@.live, id)].shm_id == id,
                has_id(self@.live, id) ==> forall|j: int|
                    0 <= j < idx_of(self@.live, id) ==> self@.live[j].shm_id != id,
            decreases n - i,
        {
            if self.live[i].shm_id == id {
                proof {
                    assert(has_id(self@.live, id));
                }
                return Some(i);
            }
            i = i + 1;
        }
        None
    }

    /// Grant a fresh segment of `len` bytes, not yet mapped.
    pub fn allocate(&mut self, len: usize) -> (r: Result<i32, ShmError>)
        requires
            old(self)@.wf(),
        ensures
            final(self)@.wf(),
            old(self)@.can_alloc(len) ==> r == Ok::<i32, ShmError>(old(self)@.next_id as i32)
                && final(self)@ == old(self)@.alloc_t(len),
            !old(self)@.can_alloc(len) ==> r == Err::<i32, ShmError>(ShmError::AllocationError)
                && final(self)@ == old(self)@,
    {
        if len == 0 || len > self.capacity - self.used || self.next_id == i32::MAX {
            return Err(ShmError::AllocationError);
        }
        let id: i32 = self.next_id;
        self.next_id = self.next_id + 1;
        self.used = self.used + len;
        self.live.push(LiveSegment { shm_id: id, len, mapped: false });
        proof {
            let t = self@.live;
            assert(t.drop_last() =~= old(self)@.live);
            assert(self@ =~= old(self)@.alloc_t(len));
        }
        Ok(id)
    }

    /// Map the live segment named `id` into the address space.
    pub fn map_segment(&mut self, id: i32) -> (r: Result<(), ShmError>)
        requires
            old(self)@.wf(),
        ensures
            final(self)@.wf(),
            old(self)@.can_map(id) ==> r == Ok::<(), ShmError>(())
                && final(self)@ == old(self)@.map_t(id),
            !old(self)@.can_map(id) ==> r == Err::<(), ShmError>(ShmError::MapError)
                && final(self)@ == old(self)@,
    {
        let found = self.find_idx(id);
        match found {
            None => Err(ShmError::MapError),
            Some(i) => {
                if self.live[i].mapped || self.slots_free == 0 {
                    return Err(ShmError::MapError);
                }
                let len: usize = self.live[i].len;
                self.live.set(i, LiveSegment { shm_id: id, len, mapped: true });
                self.slots_free = self.slots_free - 1;
                proof {
                    lemma_mapped_count_update(old(self)@.live, i as int);
                    lemma_sum_lens_update_same(old(self)@.live, i as int);
                    assert(self@ =~= old(self)@.map_t(id));
                }
                Ok(())
            },
        }
    }

    /// Unmap and destroy the segment named `id`; unknown identifiers are
    /// ignored, as the kernel call's failure would be.
    pub fn destroy(&mut self, id: i32)
        requires
            old(self)@.wf(),
        ensures
            final(self)@.wf(),
            final(self)@ == old(self)@.destroy_t(id),
    {
        let found = self.find_idx(id);
        match found {
            None => (),
            Some(i) => {
                let seg: LiveSegment = self.live[i];
                proof {
                    lemma_sum_lens_remove(self@.live, i as int);
                    lemma_mapped_count_remove(self@.live, i as int);
                    lemma_sum_lens_bounds(self@.live, i as int);
                    lemma_mapped_count_bounds(self@.live, i as int);
                }
                self.live.remove(i);
                self.used = self.used - seg.len;
                if seg.mapped {
                    self.slots_free = self.slots_free + 1;
                }
                proof {
                    assert(self@ =~= old(self)@.destroy_t(id));
                }
            },
        }
    }

    /// Bytes currently granted to live segments.
    pub fn used_bytes(&self) -> (r: usize)
        ensures
            r == self@.used,
    {
        self.used
    }

    /// How many segments are live.
    pub fn live_count(&self) -> (r: usize)
        ensures
            r == self@.live.len(),
    {
        self.live.len()
    }

    /// Mapping slots still free.
    pub fn free_slots(&self) -> (r: usize)
        ensures
            r == self@.slots_free,
    {
        self.slots_free
    }

    /// Whether the segment named `id` is live.
    pub fn is_live(&self, id: i32) -> (r: bool)
        ensures
            r == has_id(self@.live, id),
    {
        let found = self.find_idx(id);
        match found {
            Some(_) => true,
            None => false,
        }
    }
}

/// Updating one segment in place, length unchanged, keeps the byte total.
proof fn lemma_sum_lens_update_same(s: Seq<LiveSegment>, i: int)
    requires
        0 <= i < s.len(),
    ensures
        forall|e: LiveSegment| e.len == s[i].len ==> sum_lens(#[trigger] s.update(i, e))
            == sum_lens(s),
    decreases s.len(),
{
    assert forall|e: LiveSegment| e.len == s[i].len implies sum_lens(#[trigger] s.update(i, e))
        == sum_lens(s) by {
        let t = s.update(i, e);
        if i == s.len() - 1 {
            assert(t.drop_last() =~= s.drop_last());
        } else {
            lemma_sum_lens_update_same(s.drop_last(), i);
            assert(t.drop_last() =~= s.drop_last().update(i, e));
            assert(t.last() == s.last());
        }
    }
}

/// Setting one segment's mapped bit raises the mapped count by one.
proof fn lemma_mapped_count_update(s: Seq<LiveSegment>, i: int)
    requires
        0 <= i < s.len(),
        !s[i].mapped,
    ensures
        forall|e: LiveSegment| e.mapped ==> mapped_count(#[trigger] s.update(i, e))
            == mapped_count(s) + 1,
    decreases s.len(),
{
    assert forall|e: LiveSegment| e.mapped implies mapped_count(#[trigger] s.update(i, e))
        == mapped_count(s) + 1 by {
        let t = s.update(i, e);
        if i == s.len() - 1 {
            assert(t.drop_last() =~= s.drop_last());
        } else {
            lemma_mapped_count_update(s.drop_last(), i);
            assert(t.drop_last() =~= s.drop_last().update(i, e));
            assert(t.last() == s.last());
        }
    }
}

/// Removing one segment subtracts exactly its length from the byte total.
proof fn lemma_sum_lens_remove(s: Seq<LiveSegment>, i: int)
    requires
        0 <= i < s.len(),
    ensures
        sum_lens(s.remove(i)) == sum_lens(s) - s[i].len,
    decreases s.len(),
{
    if i == s.len() - 1 {
        assert(s.remove(i) =~= s.drop_last());
    } else {
        lemma_sum_lens_remove(s.drop_last(), i);
        assert(s.remove(i).drop_last() =~= s.drop_last().remove(i));
        assert(s.remove(i).last() == s.last());
    }
}

/// Removing one segment subtracts its own contribution from the mapped count.
proof fn lemma_mapped_count_remove(s: Seq<LiveSegment>, i: int)
    requires
        0 <= i < s.len(),
    ensures
        mapped_count(s.remove(i)) == mapped_count(s) - if s[i].mapped {
            1int
        } else {
            0int
        },
    decreases s.len(),
{
    if i == s.len() - 1 {
        assert(s.remove(i) =~= s.drop_last());
    } else {
        lemma_mapped_count_remove(s.drop_last(), i);
        assert(s.remove(i).drop_last() =~= s.drop_last().remove(i));
        assert(s.remove(i).last() == s.last());
    }
}

/// Each segment's length is at most the byte total.
proof fn lemma_sum_lens_bounds(s: Seq<LiveSegment>, i: int)
    requires
        0 <= i < s.len(),
    ensures
        s[i].len <= sum_lens(s),
        sum_lens(s) >= 0,
    decreases s.len(),
{
    lemma_sum_lens_nonneg(s);
    if i == s.len() - 1 {
        lemma_sum_lens_nonneg(s.drop_last());
    } else {
        lemma_sum_lens_bounds(s.drop_last(), i);
    }
}

/// Byte totals are never negative.
proof fn lemma_sum_lens_nonneg(s: Seq<LiveSegment>)
    ensures
        sum_lens(s) >= 0,
    decreases s.len(),
{
    if s.len() > 0 {
        lemma_sum_lens_nonneg(s.drop_last());
    }
}

/// A mapped segment contributes at least one to the mapped count.
proof fn lemma_mapped_count_bounds(s: Seq<LiveSegment>, i: int)
    requires
        0 <= i < s.len(),
    ensures
        s[i].mapped ==> mapped_count(s) >= 1,
        mapped_count(s) >= 0,
    decreases s.len(),
{
    lemma_mapped_count_nonneg(s);
    if i == s.len() - 1 {
        lemma_mapped_count_nonneg(s.drop_last());
    } else {
        lemma_mapped_count_bounds(s.drop_last(), i);
    }
}

/// Mapped counts are never negative.
proof fn lemma_mapped_count_nonneg(s: Seq<LiveSegment>)
    ensures
        mapped_count(s) >= 0,
    decreases s.len(),
{
    if s.len() > 0 {
        lemma_mapped_count_nonneg(s.drop_last());
    }
}

} // verus!
